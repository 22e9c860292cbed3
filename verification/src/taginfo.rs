//! Descriptions of the known tags and of the categories that group them.

use vstd::multiset::Multiset;
use vstd::prelude::*;

use crate::strutil::{
    assoc_find, lemma_assoc_find_at, lemma_assoc_find_none, lemma_lex_le_total,
    lemma_lex_le_trans, lex_le, str_eq, str_le,
};
use crate::hack::{extend_tags_unique, tag_views};
use crate::tags::Tag;

verus! {

/// Description of one tag.
#[derive(Debug)]
pub struct SingleTagInfo {
    /// The category grouping this tag, if any.
    pub category: Option<String>,
    pub description: Option<String>,
    /// Tags every carrier of this tag also carries.
    pub implies: Vec<Tag>,
    pub priority: u32,
    /// Text shown for the tag in place of its identifier.
    pub label: Option<String>,
}

/// Model of a tag description.
#[verifier::ext_equal]
pub ghost struct SingleTagInfoModel {
    pub category: Option<Seq<char>>,
    pub description: Option<Seq<char>>,
    pub implies: Seq<Seq<char>>,
    pub priority: u32,
    pub label: Option<Seq<char>>,
}

/// The contents of an optional string.
pub open spec fn opt_str_view(o: Option<String>) -> Option<Seq<char>> {
    match o {
        Option::None => Option::None,
        Option::Some(s) => Option::Some(s@),
    }
}

impl View for SingleTagInfo {
    type V = SingleTagInfoModel;

    open spec fn view(&self) -> SingleTagInfoModel {
        SingleTagInfoModel {
            category: opt_str_view(self.category),
            description: opt_str_view(self.description),
            implies: crate::hack::tag_views(self.implies@),
            priority: self.priority,
            label: opt_str_view(self.label),
        }
    }
}

/// Description of one category of tags.
#[derive(Debug)]
pub struct CategoryInfo {
    pub background_color: String,
    pub border_color: String,
    /// Whether every file must carry a tag of this category.
    pub required_for_file: bool,
    pub priority: u32,
}

/// Model of a category description.
#[verifier::ext_equal]
pub ghost struct CategoryInfoModel {
    pub background_color: Seq<char>,
    pub border_color: Seq<char>,
    pub required_for_file: bool,
    pub priority: u32,
}

impl View for CategoryInfo {
    type V = CategoryInfoModel;

    open spec fn view(&self) -> CategoryInfoModel {
        CategoryInfoModel {
            background_color: self.background_color@,
            border_color: self.border_color@,
            required_for_file: self.required_for_file,
            priority: self.priority,
        }
    }
}

/// The known tags and categories.
#[derive(Debug)]
pub struct TagInfo {
    pub tags: Vec<(Tag, SingleTagInfo)>,
    pub categories: Vec<(String, CategoryInfo)>,
}

/// Model of the tag and category tables.
#[verifier::ext_equal]
pub ghost struct TagInfoModel {
    pub tags: Seq<(Seq<char>, SingleTagInfoModel)>,
    pub categories: Seq<(Seq<char>, CategoryInfoModel)>,
}

impl View for TagInfo {
    type V = TagInfoModel;

    open spec fn view(&self) -> TagInfoModel {
        TagInfoModel {
            tags: self.tags@.map_values(|e: (Tag, SingleTagInfo)| (e.0@, e.1@)),
            categories: self.categories@.map_values(|e: (String, CategoryInfo)| (e.0@, e.1@)),
        }
    }
}

impl Default for TagInfo {
    fn default() -> (r: Self)
        ensures
            r@.tags.len() == 0,
            r@.categories.len() == 0,
    {
        TagInfo { tags: Vec::new(), categories: Vec::new() }
    }
}

impl TagInfo {
    /// An empty table.
    pub fn new() -> (r: Self)
        ensures
            r@.tags.len() == 0,
            r@.categories.len() == 0,
    {
        TagInfo { tags: Vec::new(), categories: Vec::new() }
    }

    /// The description of a tag, if the tag is known.
    pub fn get_tag(&self, tag_id: &Tag) -> (r: Option<&SingleTagInfo>)
        ensures
            match r {
                Option::Some(info) => assoc_find(self@.tags, tag_id@) == Option::Some(info@),
                Option::None => assoc_find(self@.tags, tag_id@) is None,
            },
    {
        let ghost s = self@.tags;
        let mut i: usize = 0;
        while i < self.tags.len()
            invariant
                0 <= i <= self.tags@.len(),
                s == self@.tags,
                forall|j: int| 0 <= j < i ==> s[j].0 != tag_id@,
            decreases self.tags@.len() - i,
        {
            proof {
                assert(s[i as int] == (self.tags@[i as int].0@, self.tags@[i as int].1@));
            }
            if str_eq(self.tags[i].0.0.as_str(), tag_id.0.as_str()) {
                proof {
                    lemma_assoc_find_at(s, tag_id@, i as int);
                }
                return Option::Some(&self.tags[i].1);
            }
            i += 1;
        }
        proof {
            lemma_assoc_find_none(s, tag_id@);
        }
        Option::None
    }

    /// The description of a category, if the category is known.
    pub fn get_category(&self, category_id: &str) -> (r: Option<&CategoryInfo>)
        ensures
            match r {
                Option::Some(c) => assoc_find(self@.categories, category_id@) == Option::Some(c@),
                Option::None => assoc_find(self@.categories, category_id@) is None,
            },
    {
        let ghost s = self@.categories;
        let mut i: usize = 0;
        while i < self.categories.len()
            invariant
                0 <= i <= self.categories@.len(),
                s == self@.categories,
                forall|j: int| 0 <= j < i ==> s[j].0 != category_id@,
            decreases self.categories@.len() - i,
        {
            proof {
                assert(s[i as int] == (
                    self.categories@[i as int].0@,
                    self.categories@[i as int].1@,
                ));
            }
            if str_eq(self.categories[i].0.as_str(), category_id) {
                proof {
                    lemma_assoc_find_at(s, category_id@, i as int);
                }
                return Option::Some(&self.categories[i].1);
            }
            i += 1;
        }
        proof {
            lemma_assoc_find_none(s, category_id@);
        }
        Option::None
    }

    /// The category a tag description points at, if it names one and the
    /// category is known.
    pub fn get_category_for_single_tag_info(&self, tag: &SingleTagInfo, _tag_id: &Tag) -> (r:
        Option<&CategoryInfo>)
        ensures
            match tag@.category {
                Option::None => r is None,
                Option::Some(cid) => match r {
                    Option::Some(c) => assoc_find(self@.categories, cid) == Option::Some(c@),
                    Option::None => assoc_find(self@.categories, cid) is None,
                },
            },
    {
        match &tag.category {
            Option::Some(category_id) => self.get_category(category_id.as_str()),
            Option::None => Option::None,
        }
    }

    /// The category of a tag, resolved through the tag's description.
    pub fn get_category_for_tag_id(&self, tag_id: &Tag) -> (r: Option<&CategoryInfo>)
        ensures
            match assoc_find(self@.tags, tag_id@) {
                Option::None => r is None,
                Option::Some(info) => match info.category {
                    Option::None => r is None,
                    Option::Some(cid) => match r {
                        Option::Some(c) => assoc_find(self@.categories, cid) == Option::Some(c@),
                        Option::None => assoc_find(self@.categories, cid) is None,
                    },
                },
            },
    {
        match self.get_tag(tag_id) {
            Option::Some(tag) => self.get_category_for_single_tag_info(tag, tag_id),
            Option::None => Option::None,
        }
    }
}

/// The display priority of a tag's category; 0 for an unknown tag, a tag
/// without a category, or a dangling category.
pub open spec fn spec_cat_priority(ti: TagInfoModel, id: Seq<char>) -> u32 {
    match assoc_find(ti.tags, id) {
        Option::None => 0,
        Option::Some(info) => match info.category {
            Option::None => 0,
            Option::Some(cid) => match assoc_find(ti.categories, cid) {
                Option::None => 0,
                Option::Some(c) => c.priority,
            },
        },
    }
}

/// The display priority of a tag itself; 0 for an unknown tag.
pub open spec fn spec_tag_priority(ti: TagInfoModel, id: Seq<char>) -> u32 {
    match assoc_find(ti.tags, id) {
        Option::None => 0,
        Option::Some(info) => info.priority,
    }
}

/// The text a tag is shown as: its label if it has one, else its
/// identifier.
pub open spec fn spec_tag_label(ti: TagInfoModel, id: Seq<char>) -> Seq<char> {
    match assoc_find(ti.tags, id) {
        Option::None => id,
        Option::Some(info) => match info.label {
            Option::None => id,
            Option::Some(l) => l,
        },
    }
}

/// The display order of tags: higher category priority first, then higher
/// tag priority, then by label.
pub open spec fn spec_tag_le(ti: TagInfoModel, a: Seq<char>, b: Seq<char>) -> bool {
    let ca = spec_cat_priority(ti, a);
    let cb = spec_cat_priority(ti, b);
    if ca != cb {
        ca > cb
    } else {
        let pa = spec_tag_priority(ti, a);
        let pb = spec_tag_priority(ti, b);
        if pa != pb {
            pa > pb
        } else {
            lex_le(spec_tag_label(ti, a), spec_tag_label(ti, b))
        }
    }
}

/// Any two tags are ordered.
pub proof fn lemma_tag_le_total(ti: TagInfoModel, a: Seq<char>, b: Seq<char>)
    ensures
        spec_tag_le(ti, a, b) || spec_tag_le(ti, b, a),
{
    lemma_lex_le_total(spec_tag_label(ti, a), spec_tag_label(ti, b));
}

/// The display order is transitive.
pub proof fn lemma_tag_le_trans(ti: TagInfoModel, a: Seq<char>, b: Seq<char>, c: Seq<char>)
    requires
        spec_tag_le(ti, a, b),
        spec_tag_le(ti, b, c),
    ensures
        spec_tag_le(ti, a, c),
{
    if spec_cat_priority(ti, a) == spec_cat_priority(ti, b) && spec_cat_priority(ti, b)
        == spec_cat_priority(ti, c) && spec_tag_priority(ti, a) == spec_tag_priority(ti, b)
        && spec_tag_priority(ti, b) == spec_tag_priority(ti, c) {
        lemma_lex_le_trans(
            spec_tag_label(ti, a),
            spec_tag_label(ti, b),
            spec_tag_label(ti, c),
        );
    }
}

impl TagInfo {
    /// The display priority of a tag's category.
    pub fn category_priority(&self, id: &Tag) -> (r: u32)
        ensures
            r == spec_cat_priority(self@, id@),
    {
        match self.get_tag(id) {
            Option::None => 0,
            Option::Some(info) => match &info.category {
                Option::None => 0,
                Option::Some(cid) => match self.get_category(cid.as_str()) {
                    Option::None => 0,
                    Option::Some(c) => c.priority,
                },
            },
        }
    }

    /// The display priority of a tag itself.
    pub fn tag_priority(&self, id: &Tag) -> (r: u32)
        ensures
            r == spec_tag_priority(self@, id@),
    {
        match self.get_tag(id) {
            Option::None => 0,
            Option::Some(info) => info.priority,
        }
    }

    /// The text a tag is shown as.
    pub fn tag_label<'a>(&'a self, id: &'a Tag) -> (r: &'a str)
        ensures
            r@ == spec_tag_label(self@, id@),
    {
        match self.get_tag(id) {
            Option::None => id.0.as_str(),
            Option::Some(info) => match &info.label {
                Option::None => id.0.as_str(),
                Option::Some(l) => l.as_str(),
            },
        }
    }

    /// Decide the display order of two tags.
    pub fn tag_le(&self, a_id: &Tag, b_id: &Tag) -> (r: bool)
        ensures
            r == spec_tag_le(self@, a_id@, b_id@),
    {
        let ca = self.category_priority(a_id);
        let cb = self.category_priority(b_id);
        if ca != cb {
            return ca > cb;
        }
        let pa = self.tag_priority(a_id);
        let pb = self.tag_priority(b_id);
        if pa != pb {
            return pa > pb;
        }
        str_le(self.tag_label(a_id), self.tag_label(b_id))
    }

    /// Sort tags for display: higher category priority first, then higher
    /// tag priority, then by label.
    pub fn orders_tags(&self, tags: Vec<Tag>) -> (r: Vec<Tag>)
        ensures
            r@.to_multiset() == tags@.to_multiset(),
            forall|x: int, y: int|
                0 <= x < y < r@.len() ==> spec_tag_le(self@, #[trigger] r@[x]@, #[trigger] r@[y]@),
    {
        broadcast use vstd::seq_lib::group_to_multiset_ensures;

        let ghost all = tags@;
        let mut rest = tags;
        let mut out: Vec<Tag> = Vec::new();
        while rest.len() > 0
            invariant
                out@.to_multiset().add(rest@.to_multiset()) == all.to_multiset(),
                forall|x: int, y: int|
                    0 <= x < y < out@.len() ==> spec_tag_le(
                        self@,
                        #[trigger] out@[x]@,
                        #[trigger] out@[y]@,
                    ),
            decreases rest@.len(),
        {
            let ghost rest0 = rest@;
            let x = rest.remove(0);
            proof {
                rest0.to_multiset_ensures();
                assert(rest0.contains(x));
                assert(rest0.to_multiset().count(x) > 0);
                assert(rest@ == rest0.remove(0));
                assert(rest0.remove(0).to_multiset() =~= rest0.to_multiset().remove(x));
            }
            let mut p: usize = 0;
            while p < out.len() && !self.tag_le(&x, &out[p])
                invariant
                    0 <= p <= out@.len(),
                    forall|k: int| 0 <= k < p ==> !spec_tag_le(self@, x@, #[trigger] out@[k]@),
                decreases out@.len() - p,
            {
                p += 1;
            }
            let ghost out0 = out@;
            proof {
                assert forall|k: int| 0 <= k < p implies spec_tag_le(
                    self@,
                    #[trigger] out0[k]@,
                    x@,
                ) by {
                    lemma_tag_le_total(self@, x@, out0[k]@);
                }
            }
            out.insert(p, x);
            proof {
                out@.to_multiset_ensures();
                assert(out@.remove(p as int) =~= out0);
                assert(out@.remove(p as int).to_multiset() =~= out@.to_multiset().remove(
                    out@[p as int],
                ));
                assert(out@[p as int] == x);
                assert(out@.contains(x));
                assert(out@.to_multiset().count(x) > 0);
                assert(out@.to_multiset() =~= out0.to_multiset().insert(x));
                assert forall|ix: int, iy: int| 0 <= ix < iy < out@.len() implies spec_tag_le(
                    self@,
                    #[trigger] out@[ix]@,
                    #[trigger] out@[iy]@,
                ) by {
                    if iy == p {
                        assert(out@[iy] == x);
                        assert(out@[ix] == out0[ix]);
                    } else if ix == p {
                        assert(out@[ix] == x);
                        assert(out@[iy] == out0[iy - 1]);
                        assert((p as int) < out0.len());
                        assert(out0[p as int] == out@[p + 1]);
                        if iy - 1 > p {
                            assert(spec_tag_le(self@, out0[p as int]@, out0[iy - 1]@));
                            lemma_tag_le_trans(self@, x@, out0[p as int]@, out0[iy - 1]@);
                        } else {
                            assert(out@[iy] == out0[p as int]);
                            assert(spec_tag_le(self@, x@, out0[p as int]@));
                        }
                    } else if ix < p && iy < p {
                        assert(out@[ix] == out0[ix]);
                        assert(out@[iy] == out0[iy]);
                    } else if ix < p {
                        assert(out@[ix] == out0[ix]);
                        assert(out@[iy] == out0[iy - 1]);
                        if iy - 1 == ix {
                        } else {
                            assert(spec_tag_le(self@, out0[ix]@, out0[iy - 1]@));
                        }
                    } else {
                        assert(out@[ix] == out0[ix - 1]);
                        assert(out@[iy] == out0[iy - 1]);
                    }
                }
            }
        }
        proof {
            assert(rest@.to_multiset() =~= Multiset::<Tag>::empty());
            assert(out@.to_multiset() =~= all.to_multiset());
        }
        out
    }
}

/// Membership in a pushed list.
proof fn lemma_contains_push(s: Seq<Seq<char>>, x: Seq<char>, t: Seq<char>)
    ensures
        s.push(x).contains(t) <==> s.contains(t) || t == x,
{
    if s.push(x).contains(t) {
        let k = choose|k: int| 0 <= k < s.push(x).len() && s.push(x)[k] == t;
        if k < s.len() {
            assert(s.contains(t));
        }
    }
    if s.contains(t) {
        let k = choose|k: int| 0 <= k < s.len() && s[k] == t;
        assert(s.push(x)[k] == t);
    }
    if t == x {
        assert(s.push(x)[s.len() as int] == t);
    }
}

/// How many entries of one implication list are not yet known.
pub open spec fn missing_in_list(implies: Seq<Seq<char>>, known: Seq<Seq<char>>) -> nat
    decreases implies.len(),
{
    if implies.len() == 0 {
        0
    } else {
        (if known.contains(implies[0]) {
            0nat
        } else {
            1nat
        }) + missing_in_list(implies.skip(1), known)
    }
}

/// How many implications of the whole table are not yet known.
pub open spec fn missing_total(
    entries: Seq<(Seq<char>, SingleTagInfoModel)>,
    known: Seq<Seq<char>>,
) -> nat
    decreases entries.len(),
{
    if entries.len() == 0 {
        0
    } else {
        missing_in_list(entries[0].1.implies, known) + missing_total(entries.skip(1), known)
    }
}

proof fn lemma_missing_in_list_mono(l: Seq<Seq<char>>, known: Seq<Seq<char>>, u: Seq<char>)
    ensures
        missing_in_list(l, known.push(u)) <= missing_in_list(l, known),
    decreases l.len(),
{
    if l.len() > 0 {
        lemma_contains_push(known, u, l[0]);
        lemma_missing_in_list_mono(l.skip(1), known, u);
    }
}

proof fn lemma_missing_in_list_strict(
    l: Seq<Seq<char>>,
    known: Seq<Seq<char>>,
    u: Seq<char>,
    j: int,
)
    requires
        0 <= j < l.len(),
        l[j] == u,
        !known.contains(u),
    ensures
        missing_in_list(l, known.push(u)) < missing_in_list(l, known),
    decreases j,
{
    lemma_contains_push(known, u, l[0]);
    if j == 0 {
        lemma_missing_in_list_mono(l.skip(1), known, u);
    } else {
        assert(l.skip(1)[j - 1] == l[j]);
        lemma_missing_in_list_strict(l.skip(1), known, u, j - 1);
    }
}

proof fn lemma_missing_total_mono(
    entries: Seq<(Seq<char>, SingleTagInfoModel)>,
    known: Seq<Seq<char>>,
    u: Seq<char>,
)
    ensures
        missing_total(entries, known.push(u)) <= missing_total(entries, known),
    decreases entries.len(),
{
    if entries.len() > 0 {
        lemma_missing_in_list_mono(entries[0].1.implies, known, u);
        lemma_missing_total_mono(entries.skip(1), known, u);
    }
}

proof fn lemma_missing_total_strict(
    entries: Seq<(Seq<char>, SingleTagInfoModel)>,
    known: Seq<Seq<char>>,
    u: Seq<char>,
    i: int,
    j: int,
)
    requires
        0 <= i < entries.len(),
        0 <= j < entries[i].1.implies.len(),
        entries[i].1.implies[j] == u,
        !known.contains(u),
    ensures
        missing_total(entries, known.push(u)) < missing_total(entries, known),
    decreases i,
{
    if i == 0 {
        lemma_missing_in_list_strict(entries[0].1.implies, known, u, j);
        lemma_missing_total_mono(entries.skip(1), known, u);
    } else {
        lemma_missing_in_list_mono(entries[0].1.implies, known, u);
        assert(entries.skip(1)[i - 1] == entries[i]);
        lemma_missing_total_strict(entries.skip(1), known, u, i - 1, j);
    }
}

/// One implication step: the table's entry for `u` lists `t` at position
/// `j` of its implications.
pub open spec fn spec_implies_step(
    entries: Seq<(Seq<char>, SingleTagInfoModel)>,
    u: Seq<char>,
    j: int,
    t: Seq<char>,
) -> bool {
    match crate::strutil::assoc_find(entries, u) {
        Option::Some(info) => 0 <= j < info.implies.len() && info.implies[j] == t,
        Option::None => false,
    }
}

/// A tag is reachable in at most `n` implication steps from a base set.
pub open spec fn spec_reaches(
    entries: Seq<(Seq<char>, SingleTagInfoModel)>,
    base: Seq<Seq<char>>,
    t: Seq<char>,
    n: nat,
) -> bool
    decreases n,
{
    if base.contains(t) {
        true
    } else if n == 0 {
        false
    } else {
        exists|u: Seq<char>, j: int|
            #![trigger spec_implies_step(entries, u, j, t)]
            spec_reaches(entries, base, u, (n - 1) as nat) && spec_implies_step(entries, u, j, t)
    }
}

/// A tag is implied, directly or indirectly, by a base set.
pub open spec fn spec_implied_from(
    entries: Seq<(Seq<char>, SingleTagInfoModel)>,
    base: Seq<Seq<char>>,
    t: Seq<char>,
) -> bool {
    exists|n: nat| spec_reaches(entries, base, t, n)
}

proof fn lemma_reaches_more_steps(
    entries: Seq<(Seq<char>, SingleTagInfoModel)>,
    base: Seq<Seq<char>>,
    t: Seq<char>,
    n: nat,
    m: nat,
)
    requires
        spec_reaches(entries, base, t, n),
        m >= n,
    ensures
        spec_reaches(entries, base, t, m),
    decreases m,
{
    if !base.contains(t) && n > 0 && m > 0 {
        let (u, j) = choose|u: Seq<char>, j: int|
            #![trigger spec_implies_step(entries, u, j, t)]
            spec_reaches(entries, base, u, (n - 1) as nat) && spec_implies_step(entries, u, j, t);
        lemma_reaches_more_steps(entries, base, u, (n - 1) as nat, (m - 1) as nat);
        assert(spec_implies_step(entries, u, j, t));
    }
}

/// The first match behind a successful association lookup.
proof fn lemma_assoc_find_witness(
    s: Seq<(Seq<char>, SingleTagInfoModel)>,
    key: Seq<char>,
    v: SingleTagInfoModel,
)
    requires
        crate::strutil::assoc_find(s, key) == Option::Some(v),
    ensures
        exists|i: int| 0 <= i < s.len() && #[trigger] s[i] == (key, v),
    decreases s.len(),
{
    if s.len() > 0 {
        if s[0].0 == key {
            assert(s[0] == (key, v));
        } else {
            lemma_assoc_find_witness(s.skip(1), key, v);
            let i = choose|i: int| 0 <= i < s.skip(1).len() && #[trigger] s.skip(1)[i] == (key, v);
            assert(s[i + 1] == (key, v));
        }
    }
}

impl TagInfo {
    /// Close a set of tags under the table's implications: the result holds
    /// the base tags and every tag reachable from them through `implies`
    /// chains, each once, and nothing else.
    pub fn get_implied_tags(&self, base_tags: &Vec<Tag>) -> (r: Vec<Tag>)
        ensures
            forall|t: Seq<char>|
                tag_views(base_tags@).contains(t) ==> #[trigger] tag_views(r@).contains(t),
            forall|t: Seq<char>|
                #[trigger] tag_views(r@).contains(t) ==> match crate::strutil::assoc_find(
                    self@.tags,
                    t,
                ) {
                    Option::Some(info) => forall|j: int|
                        0 <= j < info.implies.len() ==> tag_views(r@).contains(
                            #[trigger] info.implies[j],
                        ),
                    Option::None => true,
                },
            forall|t: Seq<char>|
                #[trigger] tag_views(r@).contains(t) ==> spec_implied_from(
                    self@.tags,
                    tag_views(base_tags@),
                    t,
                ),
    {
        let ghost entries = self@.tags;
        let ghost base = tag_views(base_tags@);
        let mut all: Vec<Tag> = Vec::new();
        extend_tags_unique(&mut all, base_tags);
        let mut stack: Vec<Tag> = Vec::new();
        let mut i: usize = 0;
        while i < all.len()
            invariant
                0 <= i <= all@.len(),
                stack@.len() == i,
                forall|k: int| 0 <= k < i ==> #[trigger] stack@[k]@ == all@[k]@,
            decreases all@.len() - i,
        {
            stack.push(Tag(all[i].0.clone()));
            i += 1;
        }
        proof {
            assert forall|t: Seq<char>|
                #[trigger] tag_views(all@).contains(t) implies spec_implied_from(
                entries,
                base,
                t,
            ) by {
                assert(spec_reaches(entries, base, t, 0));
            }
            assert forall|t: Seq<char>| #[trigger]
                tag_views(stack@).contains(t) <==> tag_views(all@).contains(t) by {
                if tag_views(stack@).contains(t) {
                    let k = choose|k: int|
                        0 <= k < stack@.len() && tag_views(stack@)[k] == t;
                    assert(tag_views(all@)[k] == t);
                }
                if tag_views(all@).contains(t) {
                    let k = choose|k: int| 0 <= k < all@.len() && tag_views(all@)[k] == t;
                    assert(tag_views(stack@)[k] == t);
                }
            }
        }
        while stack.len() > 0
            invariant
                forall|t: Seq<char>|
                    base.contains(t) ==> #[trigger] tag_views(all@).contains(t),
                forall|t: Seq<char>|
                    #[trigger] tag_views(all@).contains(t) ==> spec_implied_from(
                        entries,
                        base,
                        t,
                    ),
                forall|t: Seq<char>|
                    #[trigger] tag_views(stack@).contains(t) ==> tag_views(all@).contains(t),
                forall|t: Seq<char>|
                    #[trigger] tag_views(all@).contains(t) && !tag_views(stack@).contains(t)
                        ==> match crate::strutil::assoc_find(entries, t) {
                        Option::Some(info) => forall|j: int|
                            0 <= j < info.implies.len() ==> tag_views(all@).contains(
                                #[trigger] info.implies[j],
                            ),
                        Option::None => true,
                    },
                entries == self@.tags,
                base == tag_views(base_tags@),
            decreases missing_total(entries, tag_views(all@)), stack@.len(),
        {
            let ghost m_start = missing_total(entries, tag_views(all@));
            let ghost stack_start = stack@.len();
            let ghost stack_pre = stack@;
            let tag = match stack.pop() {
                Option::Some(t) => t,
                Option::None => {
                    proof {
                        assert(false);
                    }
                    Tag(String::new())
                },
            };
            proof {
                assert(stack@ =~= stack_pre.drop_last());
                assert(tag == stack_pre.last());
                assert(tag_views(stack_pre)[stack_pre.len() - 1] == tag@);
                assert(tag_views(stack_pre).contains(tag@));
                assert(tag_views(all@).contains(tag@));
                assert forall|t: Seq<char>| #[trigger]
                    tag_views(stack@).contains(t) implies tag_views(stack_pre).contains(t) by {
                    let k = choose|k: int| 0 <= k < stack@.len() && tag_views(stack@)[k] == t;
                    assert(tag_views(stack_pre)[k] == t);
                }
                assert(tag_views(stack_pre) =~= tag_views(stack@).push(tag@));
                assert forall|t: Seq<char>| #[trigger]
                    tag_views(stack_pre).contains(t) <==> tag_views(stack@).contains(t) || t
                        == tag@ by {
                    lemma_contains_push(tag_views(stack@), tag@, t);
                }
            }
            match self.get_tag(&tag) {
                Option::Some(info) => {
                    let ghost info0 = info@;
                    proof {
                        lemma_assoc_find_witness(entries, tag@, info0);
                    }
                    let mut j: usize = 0;
                    while j < info.implies.len()
                        invariant
                            0 <= j <= info.implies@.len(),
                            info0 == info@,
                            crate::strutil::assoc_find(entries, tag@) == Option::Some(info0),
                            exists|ei: int|
                                0 <= ei < entries.len() && #[trigger] entries[ei] == (
                                    tag@,
                                    info0,
                                ),
                            tag_views(all@).contains(tag@),
                            forall|t: Seq<char>|
                                base.contains(t) ==> #[trigger] tag_views(all@).contains(t),
                            forall|t: Seq<char>|
                                #[trigger] tag_views(all@).contains(t) ==> spec_implied_from(
                                    entries,
                                    base,
                                    t,
                                ),
                            forall|t: Seq<char>|
                                #[trigger] tag_views(stack@).contains(t) ==> tag_views(
                                    all@,
                                ).contains(t),
                            forall|t: Seq<char>|
                                #[trigger] tag_views(all@).contains(t) && !tag_views(
                                    stack@,
                                ).contains(t) && t != tag@ ==> match crate::strutil::assoc_find(
                                    entries,
                                    t,
                                ) {
                                    Option::Some(other) => forall|k: int|
                                        0 <= k < other.implies.len() ==> tag_views(
                                            all@,
                                        ).contains(#[trigger] other.implies[k]),
                                    Option::None => true,
                                },
                            forall|k: int|
                                0 <= k < j ==> tag_views(all@).contains(
                                    #[trigger] info0.implies[k],
                                ),
                            missing_total(entries, tag_views(all@)) <= m_start,
                            missing_total(entries, tag_views(all@)) == m_start ==> stack@.len()
                                == stack_start - 1,
                            entries == self@.tags,
                            base == tag_views(base_tags@),
                        decreases info.implies@.len() - j,
                    {
                        let implied = &info.implies[j];
                        proof {
                            assert(tag_views(info.implies@)[j as int] == implied@);
                            assert(info0.implies[j as int] == implied@);
                        }
                        if !crate::hack::vec_contains_tag(&all, implied) {
                            let ghost all_pre = tag_views(all@);
                            let ghost stack_pre = tag_views(stack@);
                            all.push(Tag(implied.0.clone()));
                            stack.push(Tag(implied.0.clone()));
                            proof {
                                assert(tag_views(all@) =~= all_pre.push(implied@));
                                assert(tag_views(stack@) =~= stack_pre.push(implied@));
                                let ei = choose|ei: int|
                                    0 <= ei < entries.len() && #[trigger] entries[ei] == (
                                        tag@,
                                        info0,
                                    );
                                lemma_missing_total_strict(
                                    entries,
                                    all_pre,
                                    implied@,
                                    ei,
                                    j as int,
                                );
                                lemma_missing_total_mono(entries, all_pre, implied@);
                                assert forall|t: Seq<char>| #[trigger]
                                    tag_views(all@).contains(t) <==> all_pre.contains(t) || t
                                        == implied@ by {
                                    lemma_contains_push(all_pre, implied@, t);
                                }
                                assert forall|t: Seq<char>| #[trigger]
                                    tag_views(stack@).contains(t) <==> stack_pre.contains(t) || t
                                        == implied@ by {
                                    lemma_contains_push(stack_pre, implied@, t);
                                }
                                assert(spec_implied_from(entries, base, implied@)) by {
                                    let n = choose|n: nat| spec_reaches(entries, base, tag@, n);
                                    assert(spec_implies_step(entries, tag@, j as int, implied@));
                                    lemma_reaches_more_steps(entries, base, tag@, n, n);
                                    assert(spec_reaches(entries, base, implied@, n + 1));
                                }
                            }
                        }
                        j += 1;
                    }
                    proof {
                        assert forall|t: Seq<char>|
                            #[trigger] tag_views(all@).contains(t) && !tag_views(
                                stack@,
                            ).contains(t) implies (match crate::strutil::assoc_find(entries, t) {
                            Option::Some(other) => forall|k: int|
                                0 <= k < other.implies.len() ==> tag_views(all@).contains(
                                    #[trigger] other.implies[k],
                                ),
                            Option::None => true,
                        }) by {
                            if t == tag@ {
                                assert(crate::strutil::assoc_find(entries, t) == Option::Some(
                                    info0,
                                ));
                            }
                        }
                    }
                },
                Option::None => {},
            }
        }
        proof {
            assert(tag_views(stack@).len() == 0);
            assert forall|t: Seq<char>| !(#[trigger] tag_views(stack@).contains(t)) by {}
            assert forall|t: Seq<char>|
                tag_views(base_tags@).contains(t) implies #[trigger] tag_views(
                all@,
            ).contains(t) by {}
        }
        all
    }
}

} // verus!
