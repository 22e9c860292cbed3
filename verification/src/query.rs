//! Queries over the hack storage: which hacks match a tag expression.

use vstd::prelude::*;

use crate::hack::Hack;
use crate::storage::Storage;
use crate::strutil::{distinct_strs, str_views, vec_contains_str};
use crate::tags::{assoc_lookup, Tag};

verus! {

/// An error that happened while performing a [`Query`].  Multiple may
/// happen in a single query.
#[derive(Debug)]
pub enum QueryIssue {
    /// an unknown tag is used
    UnknownTag(Tag),
    /// The hack with the given slug can't be found (an inconsistency
    /// between the tag table and the hack table)
    HackNotFound(String),
}

/// Model of a query issue.
pub ghost enum QueryIssueModel {
    UnknownTag(Seq<char>),
    HackNotFound(Seq<char>),
}

impl View for QueryIssue {
    type V = QueryIssueModel;

    open spec fn view(&self) -> QueryIssueModel {
        match self {
            QueryIssue::UnknownTag(t) => QueryIssueModel::UnknownTag(t@),
            QueryIssue::HackNotFound(s) => QueryIssueModel::HackNotFound(s@),
        }
    }
}

/// The models of a list of issues, in order.
pub open spec fn issue_views(s: Seq<QueryIssue>) -> Seq<QueryIssueModel> {
    s.map_values(|i: QueryIssue| i@)
}

/// A query describing the hacks that should be returned by a search.
#[derive(Debug)]
pub enum Query {
    /// At least one tag of the list should match (or)
    AtLeastOneOfTag(Vec<Tag>),
    /// At least one query should match
    Or(Vec<Query>),
    /// Match every hack
    All,
    /// The element should match the first query, but not the second
    Difference(Box<Query>, Box<Query>),
    /// The element should match both queries
    Intersection(Box<Query>, Box<Query>),
}

/// The slugs a tag list matches: the union, over its tags, of the slugs
/// registered under each tag.
pub open spec fn spec_eval_tags(
    ts: Seq<Tag>,
    tags: Seq<(Seq<char>, Seq<Seq<char>>)>,
) -> Set<Seq<char>>
    decreases ts.len(),
{
    if ts.len() == 0 {
        Set::empty()
    } else {
        let head = match assoc_lookup(tags, ts[0]@) {
            Option::None => Set::<Seq<char>>::empty(),
            Option::Some(v) => v.to_set(),
        };
        head.union(spec_eval_tags(ts.skip(1), tags))
    }
}

/// The slugs a query matches, against a tag table and the set of all
/// known slugs.
pub open spec fn spec_eval(
    q: Query,
    tags: Seq<(Seq<char>, Seq<Seq<char>>)>,
    slugs: Seq<Seq<char>>,
) -> Set<Seq<char>>
    decreases q,
{
    match q {
        Query::AtLeastOneOfTag(ts) => spec_eval_tags(ts@, tags),
        Query::Or(qs) => spec_eval_or(qs@, tags, slugs),
        Query::All => slugs.to_set(),
        Query::Difference(a, b) => spec_eval(*a, tags, slugs).difference(
            spec_eval(*b, tags, slugs),
        ),
        Query::Intersection(a, b) => spec_eval(*a, tags, slugs).intersect(
            spec_eval(*b, tags, slugs),
        ),
    }
}

/// The union of what each query of a list matches.
pub open spec fn spec_eval_or(
    qs: Seq<Query>,
    tags: Seq<(Seq<char>, Seq<Seq<char>>)>,
    slugs: Seq<Seq<char>>,
) -> Set<Seq<char>>
    decreases qs,
{
    if qs.len() == 0 {
        Set::empty()
    } else {
        spec_eval(qs[0], tags, slugs).union(spec_eval_or(qs.skip(1), tags, slugs))
    }
}

/// The unknown tags a tag list reports, in order.
pub open spec fn spec_unknown_in(
    ts: Seq<Tag>,
    tags: Seq<(Seq<char>, Seq<Seq<char>>)>,
) -> Seq<Seq<char>>
    decreases ts.len(),
{
    if ts.len() == 0 {
        Seq::empty()
    } else {
        let rest = spec_unknown_in(ts.skip(1), tags);
        if assoc_lookup(tags, ts[0]@) is None {
            seq![ts[0]@] + rest
        } else {
            rest
        }
    }
}

/// The unknown tags a query reports, in traversal order.
pub open spec fn spec_unknown_tags(q: Query, tags: Seq<(Seq<char>, Seq<Seq<char>>)>) -> Seq<
    Seq<char>,
>
    decreases q,
{
    match q {
        Query::AtLeastOneOfTag(ts) => spec_unknown_in(ts@, tags),
        Query::Or(qs) => spec_unknown_or(qs@, tags),
        Query::All => Seq::empty(),
        Query::Difference(a, b) => spec_unknown_tags(*a, tags) + spec_unknown_tags(*b, tags),
        Query::Intersection(a, b) => spec_unknown_tags(*a, tags) + spec_unknown_tags(*b, tags),
    }
}

/// The unknown tags each query of a list reports, concatenated.
pub open spec fn spec_unknown_or(qs: Seq<Query>, tags: Seq<(Seq<char>, Seq<Seq<char>>)>) -> Seq<
    Seq<char>,
>
    decreases qs,
{
    if qs.len() == 0 {
        Seq::empty()
    } else {
        spec_unknown_tags(qs[0], tags) + spec_unknown_or(qs.skip(1), tags)
    }
}

/// Add to `acc` every string of `more` it does not already hold.
fn union_strs_into(acc: &mut Vec<String>, more: &Vec<String>)
    requires
        distinct_strs(old(acc)@),
    ensures
        distinct_strs(final(acc)@),
        forall|t: Seq<char>|
            #[trigger] str_views(final(acc)@).contains(t) <==> str_views(old(acc)@).contains(t)
                || str_views(more@).contains(t),
{
    let mut j: usize = 0;
    while j < more.len()
        invariant
            0 <= j <= more@.len(),
            distinct_strs(acc@),
            forall|t: Seq<char>|
                #[trigger] str_views(acc@).contains(t) <==> str_views(old(acc)@).contains(t)
                    || str_views(more@).take(j as int).contains(t),
        decreases more@.len() - j,
    {
        let ghost pre = str_views(acc@);
        let ghost cur = more@[j as int]@;
        proof {
            assert(str_views(more@)[j as int] == cur);
        }
        if !vec_contains_str(acc, more[j].as_str()) {
            acc.push(more[j].clone());
            proof {
                assert(str_views(acc@) =~= pre.push(cur));
                assert forall|x: int, y: int| 0 <= x < y < acc@.len() implies acc@[x]@
                    != acc@[y]@ by {
                    if y == acc@.len() - 1 {
                        assert(acc@[x]@ == pre[x]);
                        assert(pre.contains(pre[x]));
                    }
                }
                assert forall|t: Seq<char>| #[trigger]
                    str_views(acc@).contains(t) <==> pre.contains(t) || t == cur by {
                    if str_views(acc@).contains(t) {
                        let k = choose|k: int|
                            0 <= k < str_views(acc@).len() && str_views(acc@)[k] == t;
                        if k < pre.len() {
                            assert(pre.contains(t));
                        }
                    }
                    if pre.contains(t) {
                        let k = choose|k: int| 0 <= k < pre.len() && pre[k] == t;
                        assert(str_views(acc@)[k] == t);
                    }
                    if t == cur {
                        assert(str_views(acc@)[pre.len() as int] == t);
                    }
                }
            }
        }
        proof {
            let taken = str_views(more@).take(j as int);
            let taken1 = str_views(more@).take(j as int + 1);
            assert(taken1 =~= taken.push(cur));
            assert forall|t: Seq<char>| #[trigger]
                taken1.contains(t) <==> taken.contains(t) || t == cur by {
                if taken1.contains(t) {
                    let k = choose|k: int| 0 <= k < taken1.len() && taken1[k] == t;
                    if k < taken.len() {
                        assert(taken.contains(t));
                    }
                }
                if taken.contains(t) {
                    let k = choose|k: int| 0 <= k < taken.len() && taken[k] == t;
                    assert(taken1[k] == t);
                }
                if t == cur {
                    assert(taken1[taken.len() as int] == t);
                }
            }
        }
        j += 1;
    }
    proof {
        assert(str_views(more@).take(more@.len() as int) =~= str_views(more@));
    }
}

/// Keep the strings of `a` that `keep` does (or, with `invert`, does not)
/// hold.
fn filter_strs(a: Vec<String>, keep: &Vec<String>, invert: bool) -> (r: Vec<String>)
    requires
        distinct_strs(a@),
    ensures
        distinct_strs(r@),
        forall|t: Seq<char>|
            #[trigger] str_views(r@).contains(t) <==> str_views(a@).contains(t) && (str_views(
                keep@,
            ).contains(t) != invert),
{
    let mut r: Vec<String> = Vec::new();
    let mut i: usize = 0;
    while i < a.len()
        invariant
            0 <= i <= a@.len(),
            distinct_strs(a@),
            distinct_strs(r@),
            forall|t: Seq<char>|
                #[trigger] str_views(r@).contains(t) <==> str_views(a@).take(i as int).contains(t)
                    && (str_views(keep@).contains(t) != invert),
        decreases a@.len() - i,
    {
        let ghost pre = str_views(r@);
        let ghost cur = a@[i as int]@;
        proof {
            assert(str_views(a@)[i as int] == cur);
        }
        let wanted = vec_contains_str(keep, a[i].as_str()) != invert;
        if wanted {
            r.push(a[i].clone());
            proof {
                assert(str_views(r@) =~= pre.push(cur));
                assert forall|x: int, y: int| 0 <= x < y < r@.len() implies r@[x]@ != r@[y]@ by {
                    if y == r@.len() - 1 {
                        if pre.contains(cur) {
                            let k = choose|k: int| 0 <= k < pre.len() && pre[k] == cur;
                            assert(str_views(a@).take(i as int).contains(cur));
                            let m = choose|m: int|
                                0 <= m < i && str_views(a@).take(i as int)[m] == cur;
                            assert(a@[m]@ == cur);
                            assert(a@[m]@ == a@[i as int]@);
                            assert(false);
                        }
                        assert(r@[x]@ == pre[x]);
                        assert(pre.contains(pre[x]));
                    }
                }
            }
        }
        proof {
            let taken = str_views(a@).take(i as int);
            let taken1 = str_views(a@).take(i as int + 1);
            assert(taken1 =~= taken.push(cur));
            assert forall|t: Seq<char>| #[trigger]
                taken1.contains(t) <==> taken.contains(t) || t == cur by {
                if taken1.contains(t) {
                    let k = choose|k: int| 0 <= k < taken1.len() && taken1[k] == t;
                    if k < taken.len() {
                        assert(taken.contains(t));
                    }
                }
                if taken.contains(t) {
                    let k = choose|k: int| 0 <= k < taken.len() && taken[k] == t;
                    assert(taken1[k] == t);
                }
                if t == cur {
                    assert(taken1[taken.len() as int] == t);
                }
            }
            if wanted {
                assert forall|t: Seq<char>| #[trigger]
                    str_views(r@).contains(t) <==> pre.contains(t) || t == cur by {
                    if str_views(r@).contains(t) {
                        let k = choose|k: int|
                            0 <= k < str_views(r@).len() && str_views(r@)[k] == t;
                        if k < pre.len() {
                            assert(pre.contains(t));
                        }
                    }
                    if pre.contains(t) {
                        let k = choose|k: int| 0 <= k < pre.len() && pre[k] == t;
                        assert(str_views(r@)[k] == t);
                    }
                    if t == cur {
                        assert(str_views(r@)[pre.len() as int] == t);
                    }
                }
            }
        }
        i += 1;
    }
    proof {
        assert(str_views(a@).take(a@.len() as int) =~= str_views(a@));
    }
    r
}

impl Query {
    /// Evaluate the query, returning the matching slugs (each once) and
    /// the unknown tags met along the way, in traversal order.
    pub fn get_list_of_matching_hack(&self, storage: &Storage) -> (r: (Vec<String>, Vec<
        QueryIssue,
    >))
        ensures
            distinct_strs(r.0@),
            forall|t: Seq<char>|
                #[trigger] str_views(r.0@).contains(t) <==> spec_eval(
                    *self,
                    storage.tags@,
                    storage.spec_slugs(),
                ).contains(t),
            issue_views(r.1@) == spec_unknown_tags(*self, storage.tags@).map_values(
                |t: Seq<char>| QueryIssueModel::UnknownTag(t),
            ),
        decreases *self,
    {
        match self {
            Query::AtLeastOneOfTag(ts) => {
                let mut result: Vec<String> = Vec::new();
                let mut issues: Vec<QueryIssue> = Vec::new();
                let mut k: usize = 0;
                proof {
                    assert(issue_views(issues@) =~= spec_unknown_in(ts@.take(0), storage.tags@)
                        .map_values(|t: Seq<char>| QueryIssueModel::UnknownTag(t)));
                }
                while k < ts.len()
                    invariant
                        0 <= k <= ts@.len(),
                        distinct_strs(result@),
                        forall|t: Seq<char>|
                            #[trigger] str_views(result@).contains(t) <==> spec_eval_tags(
                                ts@.take(k as int),
                                storage.tags@,
                            ).contains(t),
                        issue_views(issues@) == spec_unknown_in(
                            ts@.take(k as int),
                            storage.tags@,
                        ).map_values(|t: Seq<char>| QueryIssueModel::UnknownTag(t)),
                    decreases ts@.len() - k,
                {
                    let ghost pre_issues = issue_views(issues@);
                    match storage.tags.get_hack_for_tag(&ts[k]) {
                        Option::Some(v) => {
                            union_strs_into(&mut result, v);
                        },
                        Option::None => {
                            issues.push(QueryIssue::UnknownTag(Tag(ts[k].0.clone())));
                            proof {
                                assert(issue_views(issues@) =~= pre_issues.push(
                                    QueryIssueModel::UnknownTag(ts@[k as int]@),
                                ));
                            }
                        },
                    }
                    proof {
                        lemma_eval_tags_take_step(ts@, storage.tags@, k as int);
                        lemma_unknown_in_take_step(ts@, storage.tags@, k as int);
                        assert(issue_views(issues@) =~= spec_unknown_in(
                            ts@.take(k as int + 1),
                            storage.tags@,
                        ).map_values(|t: Seq<char>| QueryIssueModel::UnknownTag(t)));
                    }
                    k += 1;
                }
                proof {
                    assert(ts@.take(ts@.len() as int) =~= ts@);
                }
                (result, issues)
            },
            Query::Or(qs) => {
                let mut result: Vec<String> = Vec::new();
                let mut issues: Vec<QueryIssue> = Vec::new();
                let mut k: usize = 0;
                while k < qs.len()
                    invariant
                        *self is Or,
                        qs@ == self->Or_0@,
                        0 <= k <= qs@.len(),
                        distinct_strs(result@),
                        forall|t: Seq<char>|
                            #[trigger] str_views(result@).contains(t) <==> spec_eval_or_take(
                                qs@,
                                k as int,
                                storage.tags@,
                                storage.spec_slugs(),
                            ).contains(t),
                        issue_views(issues@) == spec_unknown_or_take(
                            qs@,
                            k as int,
                            storage.tags@,
                        ).map_values(|t: Seq<char>| QueryIssueModel::UnknownTag(t)),
                    decreases qs@.len() - k,
                {
                    proof {
                        broadcast use vstd::std_specs::vec::axiom_vec_decreases_to_view;
                        assert(decreases_to!(*self => self->Or_0));
                        assert(decreases_to!(self->Or_0 => self->Or_0@));
                        assert(qs@ == self->Or_0@);
                        assert(decreases_to!(self->Or_0@ => qs@[k as int]));
                        assert(decreases_to!(*self => qs@[k as int]));
                    }
                    let (sub, mut sub_issues) = qs[k].get_list_of_matching_hack(storage);
                    union_strs_into(&mut result, &sub);
                    let ghost pre_issues = issue_views(issues@);
                    let ghost added = issue_views(sub_issues@);
                    issues.append(&mut sub_issues);
                    proof {
                        assert(issue_views(issues@) =~= pre_issues + added);
                        lemma_eval_or_take_step(qs@, k as int, storage.tags@, storage.spec_slugs());
                        lemma_unknown_or_take_step(qs@, k as int, storage.tags@);
                        lemma_map_values_distributes(
                            spec_unknown_or_take(qs@, k as int, storage.tags@),
                            spec_unknown_tags(qs@[k as int], storage.tags@),
                        );
                        assert(issue_views(issues@) =~= spec_unknown_or_take(
                            qs@,
                            k as int + 1,
                            storage.tags@,
                        ).map_values(|t: Seq<char>| QueryIssueModel::UnknownTag(t)));
                    }
                    k += 1;
                }
                proof {
                    lemma_eval_or_take_all(qs@, storage.tags@, storage.spec_slugs());
                    lemma_unknown_or_take_all(qs@, storage.tags@);
                }
                (result, issues)
            },
            Query::All => {
                let mut result: Vec<String> = Vec::new();
                let mut k: usize = 0;
                while k < storage.hacks.len()
                    invariant
                        0 <= k <= storage.hacks@.len(),
                        distinct_strs(result@),
                        forall|t: Seq<char>|
                            #[trigger] str_views(result@).contains(t) <==> storage.spec_slugs()
                                .take(k as int).contains(t),
                    decreases storage.hacks@.len() - k,
                {
                    let ghost pre = str_views(result@);
                    let ghost cur = storage.hacks@[k as int].0@;
                    proof {
                        assert(storage.spec_slugs()[k as int] == cur);
                    }
                    if !vec_contains_str(&result, storage.hacks[k].0.as_str()) {
                        result.push(storage.hacks[k].0.clone());
                        proof {
                            assert(str_views(result@) =~= pre.push(cur));
                            assert forall|x: int, y: int| 0 <= x < y < result@.len() implies result@[
                                x
                            ]@ != result@[y]@ by {
                                if y == result@.len() - 1 {
                                    assert(result@[x]@ == pre[x]);
                                    assert(pre.contains(pre[x]));
                                }
                            }
                            assert forall|t: Seq<char>| #[trigger]
                                str_views(result@).contains(t) <==> pre.contains(t) || t
                                    == cur by {
                                if str_views(result@).contains(t) {
                                    let x = choose|x: int|
                                        0 <= x < str_views(result@).len() && str_views(
                                            result@,
                                        )[x] == t;
                                    if x < pre.len() {
                                        assert(pre.contains(t));
                                    }
                                }
                                if pre.contains(t) {
                                    let x = choose|x: int| 0 <= x < pre.len() && pre[x] == t;
                                    assert(str_views(result@)[x] == t);
                                }
                                if t == cur {
                                    assert(str_views(result@)[pre.len() as int] == t);
                                }
                            }
                        }
                    }
                    proof {
                        let taken = storage.spec_slugs().take(k as int);
                        let taken1 = storage.spec_slugs().take(k as int + 1);
                        assert(taken1 =~= taken.push(cur));
                        assert forall|t: Seq<char>| #[trigger]
                            taken1.contains(t) <==> taken.contains(t) || t == cur by {
                            if taken1.contains(t) {
                                let x = choose|x: int| 0 <= x < taken1.len() && taken1[x] == t;
                                if x < taken.len() {
                                    assert(taken.contains(t));
                                }
                            }
                            if taken.contains(t) {
                                let x = choose|x: int| 0 <= x < taken.len() && taken[x] == t;
                                assert(taken1[x] == t);
                            }
                            if t == cur {
                                assert(taken1[taken.len() as int] == t);
                            }
                        }
                    }
                    k += 1;
                }
                proof {
                    assert(storage.spec_slugs().take(storage.spec_slugs().len() as int)
                        =~= storage.spec_slugs());
                    assert forall|t: Seq<char>| #[trigger]
                        storage.spec_slugs().contains(t) <==> storage.spec_slugs().to_set()
                            .contains(t) by {}
                    assert(issue_views(Seq::empty()) =~= spec_unknown_tags(*self, storage.tags@)
                        .map_values(|t: Seq<char>| QueryIssueModel::UnknownTag(t)));
                }
                (result, Vec::new())
            },
            Query::Difference(a, b) => {
                let (first, mut issues) = a.get_list_of_matching_hack(storage);
                let (second, mut second_issues) = b.get_list_of_matching_hack(storage);
                let result = filter_strs(first, &second, true);
                let ghost pre_issues = issue_views(issues@);
                let ghost added = issue_views(second_issues@);
                issues.append(&mut second_issues);
                proof {
                    assert(issue_views(issues@) =~= pre_issues + added);
                    lemma_map_values_distributes(
                        spec_unknown_tags(**a, storage.tags@),
                        spec_unknown_tags(**b, storage.tags@),
                    );
                    assert(issue_views(issues@) =~= spec_unknown_tags(*self, storage.tags@)
                        .map_values(|t: Seq<char>| QueryIssueModel::UnknownTag(t)));
                }
                (result, issues)
            },
            Query::Intersection(a, b) => {
                let (first, mut issues) = a.get_list_of_matching_hack(storage);
                let (second, mut second_issues) = b.get_list_of_matching_hack(storage);
                let result = filter_strs(first, &second, false);
                let ghost pre_issues = issue_views(issues@);
                let ghost added = issue_views(second_issues@);
                issues.append(&mut second_issues);
                proof {
                    assert(issue_views(issues@) =~= pre_issues + added);
                    lemma_map_values_distributes(
                        spec_unknown_tags(**a, storage.tags@),
                        spec_unknown_tags(**b, storage.tags@),
                    );
                    assert(issue_views(issues@) =~= spec_unknown_tags(*self, storage.tags@)
                        .map_values(|t: Seq<char>| QueryIssueModel::UnknownTag(t)));
                }
                (result, issues)
            },
        }
    }
}

/// Evaluation of the first `k` queries of a list.
pub open spec fn spec_eval_or_take(
    qs: Seq<Query>,
    k: int,
    tags: Seq<(Seq<char>, Seq<Seq<char>>)>,
    slugs: Seq<Seq<char>>,
) -> Set<Seq<char>> {
    spec_eval_or(qs.take(k), tags, slugs)
}

/// Unknown tags of the first `k` queries of a list.
pub open spec fn spec_unknown_or_take(
    qs: Seq<Query>,
    k: int,
    tags: Seq<(Seq<char>, Seq<Seq<char>>)>,
) -> Seq<Seq<char>> {
    spec_unknown_or(qs.take(k), tags)
}

proof fn lemma_eval_tags_take_step(ts: Seq<Tag>, tags: Seq<(Seq<char>, Seq<Seq<char>>)>, k: int)
    requires
        0 <= k < ts.len(),
    ensures
        spec_eval_tags(ts.take(k + 1), tags) == spec_eval_tags(ts.take(k), tags).union(
            match assoc_lookup(tags, ts[k]@) {
                Option::None => Set::<Seq<char>>::empty(),
                Option::Some(v) => v.to_set(),
            },
        ),
    decreases k,
{
    if k == 0 {
        assert(ts.take(1)[0] == ts[0]);
        assert(ts.take(1).skip(1) =~= Seq::<Tag>::empty());
        assert(ts.take(0) =~= Seq::<Tag>::empty());
        assert(spec_eval_tags(ts.take(1), tags) =~= spec_eval_tags(ts.take(0), tags).union(
            match assoc_lookup(tags, ts[0]@) {
                Option::None => Set::<Seq<char>>::empty(),
                Option::Some(v) => v.to_set(),
            },
        ));
    } else {
        lemma_eval_tags_take_step(ts.skip(1), tags, k - 1);
        assert(ts.take(k + 1)[0] == ts[0]);
        assert(ts.take(k + 1).skip(1) =~= ts.skip(1).take(k));
        assert(ts.take(k)[0] == ts[0]);
        assert(ts.take(k).skip(1) =~= ts.skip(1).take(k - 1));
        assert(ts.skip(1)[k - 1] == ts[k]);
        assert(spec_eval_tags(ts.take(k + 1), tags) =~= spec_eval_tags(ts.take(k), tags).union(
            match assoc_lookup(tags, ts[k]@) {
                Option::None => Set::<Seq<char>>::empty(),
                Option::Some(v) => v.to_set(),
            },
        ));
    }
}

proof fn lemma_unknown_in_take_step(ts: Seq<Tag>, tags: Seq<(Seq<char>, Seq<Seq<char>>)>, k: int)
    requires
        0 <= k < ts.len(),
    ensures
        spec_unknown_in(ts.take(k + 1), tags) == if assoc_lookup(tags, ts[k]@) is None {
            spec_unknown_in(ts.take(k), tags).push(ts[k]@)
        } else {
            spec_unknown_in(ts.take(k), tags)
        },
    decreases k,
{
    if k == 0 {
        assert(ts.take(1)[0] == ts[0]);
        assert(ts.take(1).skip(1) =~= Seq::<Tag>::empty());
        assert(ts.take(0) =~= Seq::<Tag>::empty());
        if assoc_lookup(tags, ts[0]@) is None {
            assert(spec_unknown_in(ts.take(1), tags) =~= spec_unknown_in(ts.take(0), tags).push(
                ts[0]@,
            ));
        }
    } else {
        lemma_unknown_in_take_step(ts.skip(1), tags, k - 1);
        assert(ts.take(k + 1)[0] == ts[0]);
        assert(ts.take(k + 1).skip(1) =~= ts.skip(1).take(k));
        assert(ts.take(k)[0] == ts[0]);
        assert(ts.take(k).skip(1) =~= ts.skip(1).take(k - 1));
        assert(ts.skip(1)[k - 1] == ts[k]);
        if assoc_lookup(tags, ts[k]@) is None {
            assert(spec_unknown_in(ts.take(k + 1), tags) =~= spec_unknown_in(
                ts.take(k),
                tags,
            ).push(ts[k]@));
        } else {
            assert(spec_unknown_in(ts.take(k + 1), tags) =~= spec_unknown_in(ts.take(k), tags));
        }
    }
}

proof fn lemma_eval_or_take_step(
    qs: Seq<Query>,
    k: int,
    tags: Seq<(Seq<char>, Seq<Seq<char>>)>,
    slugs: Seq<Seq<char>>,
)
    requires
        0 <= k < qs.len(),
    ensures
        spec_eval_or(qs.take(k + 1), tags, slugs) == spec_eval_or(qs.take(k), tags, slugs).union(
            spec_eval(qs[k], tags, slugs),
        ),
    decreases k,
{
    if k == 0 {
        assert(qs.take(1)[0] == qs[0]);
        assert(qs.take(1).skip(1) =~= Seq::<Query>::empty());
        assert(qs.take(0) =~= Seq::<Query>::empty());
        assert(spec_eval_or(qs.take(1), tags, slugs) =~= spec_eval_or(
            qs.take(0),
            tags,
            slugs,
        ).union(spec_eval(qs[0], tags, slugs)));
    } else {
        lemma_eval_or_take_step(qs.skip(1), k - 1, tags, slugs);
        assert(qs.take(k + 1)[0] == qs[0]);
        assert(qs.take(k + 1).skip(1) =~= qs.skip(1).take(k));
        assert(qs.take(k)[0] == qs[0]);
        assert(qs.take(k).skip(1) =~= qs.skip(1).take(k - 1));
        assert(qs.skip(1)[k - 1] == qs[k]);
        assert(spec_eval_or(qs.take(k + 1), tags, slugs) =~= spec_eval_or(
            qs.take(k),
            tags,
            slugs,
        ).union(spec_eval(qs[k], tags, slugs)));
    }
}

proof fn lemma_unknown_or_take_step(qs: Seq<Query>, k: int, tags: Seq<(Seq<char>, Seq<Seq<char>>)>)
    requires
        0 <= k < qs.len(),
    ensures
        spec_unknown_or(qs.take(k + 1), tags) == spec_unknown_or(qs.take(k), tags)
            + spec_unknown_tags(qs[k], tags),
    decreases k,
{
    if k == 0 {
        assert(qs.take(1)[0] == qs[0]);
        assert(qs.take(1).skip(1) =~= Seq::<Query>::empty());
        assert(qs.take(0) =~= Seq::<Query>::empty());
        assert(spec_unknown_or(qs.take(1), tags) =~= spec_unknown_or(qs.take(0), tags)
            + spec_unknown_tags(qs[0], tags));
    } else {
        lemma_unknown_or_take_step(qs.skip(1), k - 1, tags);
        assert(qs.take(k + 1)[0] == qs[0]);
        assert(qs.take(k + 1).skip(1) =~= qs.skip(1).take(k));
        assert(qs.take(k)[0] == qs[0]);
        assert(qs.take(k).skip(1) =~= qs.skip(1).take(k - 1));
        assert(qs.skip(1)[k - 1] == qs[k]);
        assert(spec_unknown_or(qs.take(k + 1), tags) =~= spec_unknown_or(qs.take(k), tags)
            + spec_unknown_tags(qs[k], tags));
    }
}

proof fn lemma_eval_or_take_all(
    qs: Seq<Query>,
    tags: Seq<(Seq<char>, Seq<Seq<char>>)>,
    slugs: Seq<Seq<char>>,
)
    ensures
        spec_eval_or(qs.take(qs.len() as int), tags, slugs) == spec_eval_or(qs, tags, slugs),
{
    assert(qs.take(qs.len() as int) =~= qs);
}

proof fn lemma_unknown_or_take_all(qs: Seq<Query>, tags: Seq<(Seq<char>, Seq<Seq<char>>)>)
    ensures
        spec_unknown_or(qs.take(qs.len() as int), tags) == spec_unknown_or(qs, tags),
{
    assert(qs.take(qs.len() as int) =~= qs);
}

proof fn lemma_map_values_distributes(a: Seq<Seq<char>>, b: Seq<Seq<char>>)
    ensures
        (a + b).map_values(|t: Seq<char>| QueryIssueModel::UnknownTag(t)) == a.map_values(
            |t: Seq<char>| QueryIssueModel::UnknownTag(t),
        ) + b.map_values(|t: Seq<char>| QueryIssueModel::UnknownTag(t)),
{
    assert((a + b).map_values(|t: Seq<char>| QueryIssueModel::UnknownTag(t)) =~= a.map_values(
        |t: Seq<char>| QueryIssueModel::UnknownTag(t),
    ) + b.map_values(|t: Seq<char>| QueryIssueModel::UnknownTag(t)));
}

/// ASCII whitespace, as trimmed from query segments.
pub open spec fn is_space(c: char) -> bool {
    c == ' ' || c == '\t' || c == '\n' || c == '\r'
}

/// The string without its leading whitespace.
pub open spec fn trim_left(s: Seq<char>) -> Seq<char>
    decreases s.len(),
{
    if s.len() > 0 && is_space(s[0]) {
        trim_left(s.skip(1))
    } else {
        s
    }
}

/// The string without its trailing whitespace.
pub open spec fn trim_right(s: Seq<char>) -> Seq<char>
    decreases s.len(),
{
    if s.len() > 0 && is_space(s.last()) {
        trim_right(s.drop_last())
    } else {
        s
    }
}

/// The string without leading or trailing whitespace.
pub open spec fn spec_trim(s: Seq<char>) -> Seq<char> {
    trim_right(trim_left(s))
}

/// The position of the first comma, or the length if there is none.
pub open spec fn first_comma(s: Seq<char>) -> int
    decreases s.len(),
{
    if s.len() == 0 {
        0
    } else if s[0] == ',' {
        0
    } else {
        1 + first_comma(s.skip(1))
    }
}

/// The comma-separated segments of the string.  A string without commas is
/// one segment; every comma separates two segments, so trailing commas
/// yield empty segments.
pub open spec fn split_commas(s: Seq<char>) -> Seq<Seq<char>>
    decreases s.len(),
{
    let fc = first_comma(s);
    if !(0 <= fc < s.len()) {
        seq![s]
    } else {
        seq![s.take(fc)] + split_commas(s.skip(fc + 1))
    }
}

proof fn lemma_first_comma_at(s: Seq<char>, i: int)
    requires
        0 <= i <= s.len(),
        forall|j: int| 0 <= j < i ==> s[j] != ',',
        i < s.len() ==> s[i] == ',',
    ensures
        i < s.len() ==> first_comma(s) == i,
        i == s.len() ==> first_comma(s) >= s.len(),
    decreases i,
{
    if s.len() > 0 && s[0] != ',' {
        assert(forall|j: int| 0 <= j < i - 1 ==> s.skip(1)[j] == s[j + 1]);
        if i > 0 {
            assert(i - 1 < s.skip(1).len() ==> s.skip(1)[i - 1] == s[i]);
            lemma_first_comma_at(s.skip(1), i - 1);
        }
    }
}

/// Decide whether a character is ASCII whitespace.
fn is_space_char(c: char) -> (r: bool)
    ensures
        r == is_space(c),
{
    c == ' ' || c == '\t' || c == '\n' || c == '\r'
}

/// Strip leading and trailing ASCII whitespace.
fn trim_str(s: &str) -> (r: String)
    ensures
        r@ == spec_trim(s@),
{
    let len = s.unicode_len();
    proof {
        assert(s@.skip(0) =~= s@);
    }
    let mut a: usize = 0;
    while a < len && is_space_char(s.get_char(a))
        invariant
            0 <= a <= len,
            len == s@.len(),
            trim_left(s@) == trim_left(s@.skip(a as int)),
        decreases len - a,
    {
        proof {
            assert(s@.skip(a as int)[0] == s@[a as int]);
            assert(s@.skip(a as int).skip(1) =~= s@.skip(a as int + 1));
        }
        a += 1;
    }
    proof {
        if a < len {
            assert(s@.skip(a as int)[0] == s@[a as int]);
        }
        assert(trim_left(s@) == s@.skip(a as int));
    }
    let mut b: usize = len;
    proof {
        assert(s@.skip(a as int) =~= s@.subrange(a as int, b as int));
    }
    while b > a && is_space_char(s.get_char(b - 1))
        invariant
            a <= b <= len,
            len == s@.len(),
            trim_right(trim_left(s@)) == trim_right(s@.subrange(a as int, b as int)),
        decreases b,
    {
        proof {
            let cur = s@.subrange(a as int, b as int);
            assert(cur.last() == s@[b - 1]);
            assert(cur.drop_last() =~= s@.subrange(a as int, b as int - 1));
        }
        b -= 1;
    }
    proof {
        let cur = s@.subrange(a as int, b as int);
        if b > a {
            assert(cur.last() == s@[b - 1]);
        }
        assert(trim_right(cur) == cur);
    }
    s.substring_char(a, b).to_owned()
}

impl Query {
    /// Parse a comma-separated list of tags: the query matches a hack
    /// carrying at least one of them.  Each segment is stripped of
    /// surrounding ASCII whitespace.
    pub fn parse(query: &str) -> (r: Query)
        ensures
            r is AtLeastOneOfTag,
            crate::hack::tag_views(r->AtLeastOneOfTag_0@) == split_commas(query@).map_values(
                |seg: Seq<char>| spec_trim(seg),
            ),
    {
        let len = query.unicode_len();
        let mut tag_list: Vec<Tag> = Vec::new();
        let mut start: usize = 0;
        proof {
            assert(query@.skip(0) =~= query@);
        }
        loop
            invariant_except_break
                0 <= start <= len,
                len == query@.len(),
                split_commas(query@).map_values(|seg: Seq<char>| spec_trim(seg))
                    == crate::hack::tag_views(tag_list@) + split_commas(
                    query@.skip(start as int),
                ).map_values(|seg: Seq<char>| spec_trim(seg)),
            ensures
                crate::hack::tag_views(tag_list@) == split_commas(query@).map_values(
                    |seg: Seq<char>| spec_trim(seg),
                ),
            decreases len - start + 1,
        {
            let ghost sub = query@.skip(start as int);
            let mut i: usize = start;
            while i < len && query.get_char(i) != ','
                invariant
                    start <= i <= len,
                    len == query@.len(),
                    forall|j: int| start <= j < i ==> query@[j] != ',',
                decreases len - i,
            {
                i += 1;
            }
            proof {
                assert(forall|j: int| 0 <= j < i - start ==> sub[j] == query@[j + start]);
                if i < len {
                    assert(sub[i - start] == query@[i as int]);
                }
                lemma_first_comma_at(sub, i as int - start as int);
            }
            let segment = query.substring_char(start, i);
            let trimmed = trim_str(segment);
            let ghost pre_tags = crate::hack::tag_views(tag_list@);
            tag_list.push(Tag(trimmed));
            proof {
                assert(segment@ =~= sub.take(i as int - start as int));
                assert(crate::hack::tag_views(tag_list@) =~= pre_tags.push(
                    spec_trim(segment@),
                ));
            }
            if i == len {
                proof {
                    assert(first_comma(sub) >= sub.len());
                    assert(split_commas(sub) == seq![sub]);
                    assert(sub.take(i as int - start as int) =~= sub);
                    assert(split_commas(sub).map_values(|seg: Seq<char>| spec_trim(seg))
                        =~= seq![spec_trim(sub)]);
                    assert(crate::hack::tag_views(tag_list@) =~= pre_tags + seq![
                        spec_trim(sub),
                    ]);
                    assert(crate::hack::tag_views(tag_list@) =~= split_commas(
                        query@,
                    ).map_values(|seg: Seq<char>| spec_trim(seg)));
                }
                break ;
            }
            proof {
                assert(first_comma(sub) == i - start);
                assert(sub.skip(i as int - start as int + 1) =~= query@.skip(i as int + 1));
                assert(split_commas(sub) == seq![sub.take(i as int - start as int)]
                    + split_commas(query@.skip(i as int + 1)));
                assert(split_commas(sub).map_values(|seg: Seq<char>| spec_trim(seg)) =~= seq![
                    spec_trim(sub.take(i as int - start as int)),
                ] + split_commas(query@.skip(i as int + 1)).map_values(
                    |seg: Seq<char>| spec_trim(seg),
                ));
            }
            start = i + 1;
        }
        Query::AtLeastOneOfTag(tag_list)
    }
}

impl Query {
    /// Evaluate the query and pair every matching slug with its stored
    /// hack, ordered by slug.  A slug the tag table knows but the hack
    /// table does not is reported as an inconsistency issue, after the
    /// unknown-tag issues.
    pub fn get_matching<'a>(&self, storage: &'a Storage) -> (r: (Vec<(String, &'a Hack)>, Vec<
        QueryIssue,
    >))
        ensures
            forall|x: int, y: int|
                0 <= x < y < r.0@.len() ==> crate::strutil::lex_le(
                    #[trigger] r.0@[x].0@,
                    #[trigger] r.0@[y].0@,
                ),
            forall|k: int|
                0 <= k < r.0@.len() ==> {
                    let i = crate::storage::first_slug_index(storage.hacks@, r.0@[k].0@);
                    &&& spec_eval(*self, storage.tags@, storage.spec_slugs()).contains(
                        #[trigger] r.0@[k].0@,
                    )
                    &&& 0 <= i < storage.hacks@.len()
                    &&& storage.hacks@[i].0@ == r.0@[k].0@
                    &&& *r.0@[k].1 == storage.hacks@[i].1
                },
            forall|t: Seq<char>|
                #[trigger] spec_eval(*self, storage.tags@, storage.spec_slugs()).contains(t)
                    ==> (exists|k: int| 0 <= k < r.0@.len() && #[trigger] r.0@[k].0@ == t)
                    || issue_views(r.1@).contains(QueryIssueModel::HackNotFound(t)),
            issue_views(r.1@).take(spec_unknown_tags(*self, storage.tags@).len() as int)
                == spec_unknown_tags(*self, storage.tags@).map_values(
                |t: Seq<char>| QueryIssueModel::UnknownTag(t),
            ),
    {
        broadcast use vstd::seq_lib::group_to_multiset_ensures;

        let (slugs, mut issues) = self.get_list_of_matching_hack(storage);
        let ghost n0 = issues@.len() as int;
        proof {
            assert(issue_views(issues@).take(n0) =~= issue_views(issues@));
        }
        let ghost matched = spec_eval(*self, storage.tags@, storage.spec_slugs());
        // Order the slugs by their contents, reusing the tag sort.
        let mut as_tags: Vec<Tag> = Vec::new();
        let mut i: usize = 0;
        while i < slugs.len()
            invariant
                0 <= i <= slugs@.len(),
                as_tags@.len() == i,
                forall|k: int| 0 <= k < i ==> #[trigger] as_tags@[k]@ == slugs@[k]@,
            decreases slugs@.len() - i,
        {
            as_tags.push(Tag(slugs[i].clone()));
            i += 1;
        }
        let sorted = crate::hack::sort_tags_lex(as_tags);
        proof {
            as_tags@.to_multiset_ensures();
            sorted@.to_multiset_ensures();
            assert forall|t: Seq<char>|
                #[trigger] crate::hack::tag_views(sorted@).contains(t) <==> matched.contains(
                t,
            ) by {
                if crate::hack::tag_views(sorted@).contains(t) {
                    let k = choose|k: int|
                        0 <= k < sorted@.len() && crate::hack::tag_views(sorted@)[k] == t;
                    assert(sorted@.contains(sorted@[k]));
                    assert(sorted@.to_multiset().count(sorted@[k]) > 0);
                    assert(as_tags@.contains(sorted@[k]));
                    let j = choose|j: int| 0 <= j < as_tags@.len() && as_tags@[j] == sorted@[k];
                    assert(str_views(slugs@)[j] == t);
                    assert(str_views(slugs@).contains(t));
                }
                if matched.contains(t) {
                    assert(str_views(slugs@).contains(t));
                    let k = choose|k: int| 0 <= k < slugs@.len() && str_views(slugs@)[k] == t;
                    assert(as_tags@[k]@ == t);
                    assert(as_tags@.contains(as_tags@[k]));
                    assert(as_tags@.to_multiset().count(as_tags@[k]) > 0);
                    assert(sorted@.contains(as_tags@[k]));
                    let j = choose|j: int| 0 <= j < sorted@.len() && sorted@[j] == as_tags@[k];
                    assert(crate::hack::tag_views(sorted@)[j] == t);
                }
            }
        }
        let mut result: Vec<(String, &Hack)> = Vec::new();
        let mut i: usize = 0;
        while i < sorted.len()
            invariant
                0 <= i <= sorted@.len(),
                matched == spec_eval(*self, storage.tags@, storage.spec_slugs()),
                forall|t: Seq<char>|
                    #[trigger] crate::hack::tag_views(sorted@).contains(t) <==> matched.contains(
                        t,
                    ),
                forall|x: int, y: int|
                    0 <= x < y < sorted@.len() ==> crate::strutil::lex_le(
                        #[trigger] sorted@[x]@,
                        #[trigger] sorted@[y]@,
                    ),
                forall|k: int|
                    0 <= k < result@.len() ==> {
                        let hi = crate::storage::first_slug_index(storage.hacks@, result@[k].0@);
                        &&& matched.contains(#[trigger] result@[k].0@)
                        &&& 0 <= hi < storage.hacks@.len()
                        &&& storage.hacks@[hi].0@ == result@[k].0@
                        &&& *result@[k].1 == storage.hacks@[hi].1
                    },
                forall|j: int|
                    0 <= j < i ==> (exists|k: int|
                        0 <= k < result@.len() && #[trigger] result@[k].0@ == sorted@[j]@)
                        || issue_views(issues@).contains(
                        QueryIssueModel::HackNotFound(#[trigger] sorted@[j]@),
                    ),
                forall|k: int, m: int|
                    0 <= k < result@.len() && i <= m < sorted@.len() ==> crate::strutil::lex_le(
                        #[trigger] result@[k].0@,
                        #[trigger] sorted@[m]@,
                    ),
                forall|x: int, y: int|
                    0 <= x < y < result@.len() ==> crate::strutil::lex_le(
                        #[trigger] result@[x].0@,
                        #[trigger] result@[y].0@,
                    ),
                issue_views(issues@).take(n0) == spec_unknown_tags(
                    *self,
                    storage.tags@,
                ).map_values(|t: Seq<char>| QueryIssueModel::UnknownTag(t)),
                0 <= n0 <= issues@.len(),
                n0 == spec_unknown_tags(*self, storage.tags@).len(),
            decreases sorted@.len() - i,
        {
            let ghost r0 = result@;
            let ghost issues0 = issue_views(issues@);
            let slug = &sorted[i].0;
            proof {
                assert(crate::hack::tag_views(sorted@)[i as int] == sorted@[i as int]@);
                assert(crate::hack::tag_views(sorted@).contains(sorted@[i as int]@));
            }
            match storage.get_hack(slug.as_str()) {
                Option::Some(h) => {
                    result.push((slug.clone(), h));
                    proof {
                        assert(result@ == r0.push(result@[r0.len() as int]));
                        assert(result@[r0.len() as int].0@ == sorted@[i as int]@);
                    }
                },
                Option::None => {
                    issues.push(QueryIssue::HackNotFound(slug.clone()));
                    proof {
                        assert(issue_views(issues@) =~= issues0.push(
                            QueryIssueModel::HackNotFound(sorted@[i as int]@),
                        ));
                        assert(issue_views(issues@)[issues0.len() as int]
                            == QueryIssueModel::HackNotFound(sorted@[i as int]@));
                        assert(issue_views(issues@).contains(
                            QueryIssueModel::HackNotFound(sorted@[i as int]@),
                        ));
                        assert(0 <= n0 <= issues0.len());
                        assert(issue_views(issues@).take(n0).len() == issues0.take(n0).len());
                        assert forall|k: int|
                            0 <= k < n0 implies issue_views(issues@).take(n0)[k] == issues0.take(
                            n0,
                        )[k] by {
                            assert(issue_views(issues@) == issues0.push(
                                QueryIssueModel::HackNotFound(sorted@[i as int]@),
                            ));
                            assert(issue_views(issues@).take(n0)[k] == issue_views(issues@)[k]);
                            assert(issues0.take(n0)[k] == issues0[k]);
                            assert(issues0.push(QueryIssueModel::HackNotFound(
                                sorted@[i as int]@,
                            ))[k] == issues0[k]);
                        }
                        assert(issue_views(issues@).take(n0) =~= issues0.take(n0));
                    }
                },
            }
            proof {
                assert forall|j: int|
                    0 <= j < i + 1 implies (exists|k: int|
                    0 <= k < result@.len() && #[trigger] result@[k].0@ == sorted@[j]@)
                    || issue_views(issues@).contains(
                    QueryIssueModel::HackNotFound(#[trigger] sorted@[j]@),
                ) by {
                    if j < i {
                        if exists|k: int|
                            0 <= k < r0.len() && #[trigger] r0[k].0@ == sorted@[j]@ {
                            let k = choose|k: int|
                                0 <= k < r0.len() && #[trigger] r0[k].0@ == sorted@[j]@;
                            assert(result@[k].0@ == sorted@[j]@);
                        } else {
                            assert(issues0.contains(
                                QueryIssueModel::HackNotFound(sorted@[j]@),
                            ));
                            let k = choose|k: int|
                                0 <= k < issues0.len() && issues0[k]
                                    == QueryIssueModel::HackNotFound(sorted@[j]@);
                            assert(issue_views(issues@)[k] == QueryIssueModel::HackNotFound(
                                sorted@[j]@,
                            ));
                        }
                    }
                }
            }
            i += 1;
        }
        let rr = (result, issues);
        proof {
            assert forall|t: Seq<char>| #[trigger]
                spec_eval(*self, storage.tags@, storage.spec_slugs()).contains(t) implies (exists|
                k: int,
            |
                0 <= k < rr.0@.len() && #[trigger] rr.0@[k].0@ == t) || issue_views(
                rr.1@,
            ).contains(QueryIssueModel::HackNotFound(t)) by {
                let result = rr.0;
                let issues = rr.1;
                assert(matched.contains(t));
                assert(crate::hack::tag_views(sorted@).contains(t));
                let j = choose|j: int|
                    0 <= j < sorted@.len() && crate::hack::tag_views(sorted@)[j] == t;
                assert(sorted@[j]@ == t);
                if exists|k: int|
                    0 <= k < result@.len() && #[trigger] result@[k].0@ == sorted@[j]@ {
                    let k = choose|k: int|
                        0 <= k < result@.len() && #[trigger] result@[k].0@ == sorted@[j]@;
                    assert(rr.0@[k].0@ == t);
                } else {
                    assert(issue_views(rr.1@).contains(QueryIssueModel::HackNotFound(t)));
                }
            }
        }
        rr
    }
}

/// Represents a query on which a censor filter was applied (creating a
/// new, more restrictive query).
#[derive(Debug)]
pub struct QueryFiltered(pub Query);

impl Query {
    /// Use the query as it is, without any censor filter.
    pub fn dont_filter(self) -> (r: QueryFiltered)
        ensures
            r.0 == self,
    {
        QueryFiltered(self)
    }

    /// Restrict the query: drop every hack that carries a tag the filter
    /// hides.
    pub fn filter(self, filter: &crate::filter::Filter) -> (r: QueryFiltered)
        ensures
            r.0 is Difference,
            *r.0->Difference_0 == self,
            *r.0->Difference_1 matches Query::AtLeastOneOfTag(ts) && crate::hack::tag_views(ts@)
                == str_views(filter.hide@),
    {
        let mut hidden: Vec<Tag> = Vec::new();
        let mut i: usize = 0;
        while i < filter.hide.len()
            invariant
                0 <= i <= filter.hide@.len(),
                hidden@.len() == i,
                forall|k: int| 0 <= k < i ==> #[trigger] hidden@[k]@ == filter.hide@[k]@,
            decreases filter.hide@.len() - i,
        {
            hidden.push(Tag(filter.hide[i].clone()));
            i += 1;
        }
        proof {
            assert(crate::hack::tag_views(hidden@) =~= str_views(filter.hide@));
        }
        QueryFiltered(Query::Difference(Box::new(self), Box::new(Query::AtLeastOneOfTag(hidden))))
    }
}

impl QueryFiltered {
    /// Evaluate the filtered query.
    pub fn search(&self, storage: &Storage) -> (r: (Vec<String>, Vec<QueryIssue>))
        ensures
            distinct_strs(r.0@),
            forall|t: Seq<char>|
                #[trigger] str_views(r.0@).contains(t) <==> spec_eval(
                    self.0,
                    storage.tags@,
                    storage.spec_slugs(),
                ).contains(t),
            issue_views(r.1@) == spec_unknown_tags(self.0, storage.tags@).map_values(
                |t: Seq<char>| QueryIssueModel::UnknownTag(t),
            ),
    {
        self.0.get_list_of_matching_hack(storage)
    }

    /// Apply one more censor filter on top.
    pub fn filter(self, filter: &crate::filter::Filter) -> (r: Self)
        ensures
            r.0 is Difference,
            *r.0->Difference_0 == self.0,
    {
        self.0.filter(filter)
    }
}

} // verus!
