//! The tag table: which hacks carry which tag.

use vstd::prelude::*;

use crate::strutil::{str_eq, str_views, vec_contains_str};

verus! {

/// A tag of the hack archive.
#[derive(Hash, PartialEq, Eq, PartialOrd, Ord, Clone, Debug)]
pub struct Tag(pub String);

impl View for Tag {
    type V = Seq<char>;

    open spec fn view(&self) -> Seq<char> {
        self.0@
    }
}

/// One entry of the tag table, as a model: a tag and the slugs of the
/// hacks carrying it.
pub open spec fn tags_entry_view(e: (Tag, Vec<String>)) -> (Seq<char>, Seq<Seq<char>>) {
    (e.0@, str_views(e.1@))
}

/// The slug list of the first entry holding the key, if any.
pub open spec fn assoc_lookup(s: Seq<(Seq<char>, Seq<Seq<char>>)>, key: Seq<char>) -> Option<
    Seq<Seq<char>>,
>
    decreases s.len(),
{
    if s.len() == 0 {
        Option::None
    } else if s[0].0 == key {
        Option::Some(s[0].1)
    } else {
        assoc_lookup(s.skip(1), key)
    }
}

/// The table after registering `slug` under `key`: the first entry holding
/// the key gains the slug unless it already has it; a missing key appends a
/// fresh entry.
pub open spec fn assoc_add(
    s: Seq<(Seq<char>, Seq<Seq<char>>)>,
    key: Seq<char>,
    slug: Seq<char>,
) -> Seq<(Seq<char>, Seq<Seq<char>>)>
    decreases s.len(),
{
    if s.len() == 0 {
        seq![(key, seq![slug])]
    } else if s[0].0 == key {
        if s[0].1.contains(slug) {
            s
        } else {
            seq![(s[0].0, s[0].1.push(slug))] + s.skip(1)
        }
    } else {
        seq![s[0]] + assoc_add(s.skip(1), key, slug)
    }
}

proof fn lemma_assoc_lookup_at(s: Seq<(Seq<char>, Seq<Seq<char>>)>, key: Seq<char>, i: int)
    requires
        0 <= i < s.len(),
        s[i].0 == key,
        forall|j: int| 0 <= j < i ==> s[j].0 != key,
    ensures
        assoc_lookup(s, key) == Option::Some(s[i].1),
    decreases i,
{
    if i > 0 {
        assert(forall|j: int| 0 <= j < i - 1 ==> s.skip(1)[j] == s[j + 1]);
        lemma_assoc_lookup_at(s.skip(1), key, i - 1);
    }
}

proof fn lemma_assoc_lookup_none(s: Seq<(Seq<char>, Seq<Seq<char>>)>, key: Seq<char>)
    requires
        forall|j: int| 0 <= j < s.len() ==> s[j].0 != key,
    ensures
        assoc_lookup(s, key) is None,
    decreases s.len(),
{
    if s.len() > 0 {
        assert(forall|j: int| 0 <= j < s.len() - 1 ==> s.skip(1)[j] == s[j + 1]);
        lemma_assoc_lookup_none(s.skip(1), key);
    }
}

proof fn lemma_assoc_add_at(
    s: Seq<(Seq<char>, Seq<Seq<char>>)>,
    key: Seq<char>,
    slug: Seq<char>,
    i: int,
)
    requires
        0 <= i < s.len(),
        s[i].0 == key,
        forall|j: int| 0 <= j < i ==> s[j].0 != key,
        !s[i].1.contains(slug),
    ensures
        assoc_add(s, key, slug) == s.update(i, (s[i].0, s[i].1.push(slug))),
    decreases i,
{
    if i == 0 {
        assert(seq![(s[0].0, s[0].1.push(slug))] + s.skip(1) =~= s.update(
            0,
            (s[0].0, s[0].1.push(slug)),
        ));
    } else {
        assert(forall|j: int| 0 <= j < s.skip(1).len() ==> s.skip(1)[j] == s[j + 1]);
        lemma_assoc_add_at(s.skip(1), key, slug, i - 1);
        assert(seq![s[0]] + s.skip(1).update(i - 1, (s[i].0, s[i].1.push(slug))) =~= s.update(
            i,
            (s[i].0, s[i].1.push(slug)),
        ));
    }
}

proof fn lemma_assoc_add_dup(
    s: Seq<(Seq<char>, Seq<Seq<char>>)>,
    key: Seq<char>,
    slug: Seq<char>,
    i: int,
)
    requires
        0 <= i < s.len(),
        s[i].0 == key,
        forall|j: int| 0 <= j < i ==> s[j].0 != key,
        s[i].1.contains(slug),
    ensures
        assoc_add(s, key, slug) == s,
    decreases i,
{
    if i > 0 {
        assert(forall|j: int| 0 <= j < s.skip(1).len() ==> s.skip(1)[j] == s[j + 1]);
        lemma_assoc_add_dup(s.skip(1), key, slug, i - 1);
        assert(seq![s[0]] + s.skip(1) =~= s);
    }
}

proof fn lemma_assoc_add_none(s: Seq<(Seq<char>, Seq<Seq<char>>)>, key: Seq<char>, slug: Seq<char>)
    requires
        forall|j: int| 0 <= j < s.len() ==> s[j].0 != key,
    ensures
        assoc_add(s, key, slug) == s.push((key, seq![slug])),
    decreases s.len(),
{
    if s.len() == 0 {
        assert(seq![(key, seq![slug])] =~= s.push((key, seq![slug])));
    } else {
        assert(forall|j: int| 0 <= j < s.skip(1).len() ==> s.skip(1)[j] == s[j + 1]);
        lemma_assoc_add_none(s.skip(1), key, slug);
        assert(seq![s[0]] + s.skip(1).push((key, seq![slug])) =~= s.push((key, seq![slug])));
    }
}

/// The tag table: for each tag, the slugs of the hacks carrying it.
pub struct Tags {
    tag_list: Vec<(Tag, Vec<String>)>,
}

impl View for Tags {
    type V = Seq<(Seq<char>, Seq<Seq<char>>)>;

    closed spec fn view(&self) -> Seq<(Seq<char>, Seq<Seq<char>>)> {
        self.tag_list@.map_values(|e: (Tag, Vec<String>)| tags_entry_view(e))
    }
}

impl Default for Tags {
    fn default() -> (r: Self)
        ensures
            r@.len() == 0,
    {
        Tags { tag_list: Vec::new() }
    }
}

impl Tags {
    /// An empty tag table.
    pub fn new() -> (r: Self)
        ensures
            r@.len() == 0,
    {
        Tags { tag_list: Vec::new() }
    }

    /// Register that the hack `hack_slug` carries `tag`.
    pub fn add_hack_with_tag(&mut self, tag: &Tag, hack_slug: String)
        ensures
            final(self)@ == assoc_add(old(self)@, tag@, hack_slug@),
    {
        let ghost s = self@;
        let mut i: usize = 0;
        while i < self.tag_list.len()
            invariant
                0 <= i <= self.tag_list@.len(),
                s == self@,
                s == old(self)@,
                forall|j: int| 0 <= j < i ==> s[j].0 != tag@,
            decreases self.tag_list@.len() - i,
        {
            proof {
                assert(s[i as int] == tags_entry_view(self.tag_list@[i as int]));
            }
            if str_eq(self.tag_list[i].0.0.as_str(), tag.0.as_str()) {
                if vec_contains_str(&self.tag_list[i].1, hack_slug.as_str()) {
                    proof {
                        lemma_assoc_add_dup(s, tag@, hack_slug@, i as int);
                    }
                    return ;
                }
                let ghost entry = s[i as int];
                self.tag_list[i].1.push(hack_slug);
                proof {
                    lemma_assoc_add_at(s, tag@, hack_slug@, i as int);
                    assert(str_views(self.tag_list@[i as int].1@) =~= entry.1.push(
                        hack_slug@,
                    ));
                    assert(self@ =~= s.update(i as int, (entry.0, entry.1.push(hack_slug@))));
                }
                return ;
            }
            i += 1;
        }
        let mut slugs: Vec<String> = Vec::new();
        slugs.push(hack_slug);
        self.tag_list.push((Tag(tag.0.clone()), slugs));
        proof {
            lemma_assoc_add_none(s, tag@, hack_slug@);
            assert(str_views(self.tag_list@.last().1@) =~= seq![hack_slug@]);
            assert(self@ =~= s.push((tag@, seq![hack_slug@])));
        }
    }

    /// The slugs of the hacks carrying `tag`, if the tag is known.
    pub fn get_hack_for_tag(&self, tag: &Tag) -> (r: Option<&Vec<String>>)
        ensures
            match r {
                Option::Some(v) => assoc_lookup(self@, tag@) == Option::Some(str_views(v@)),
                Option::None => assoc_lookup(self@, tag@) is None,
            },
    {
        let ghost s = self@;
        let mut i: usize = 0;
        while i < self.tag_list.len()
            invariant
                0 <= i <= self.tag_list@.len(),
                s == self@,
                forall|j: int| 0 <= j < i ==> s[j].0 != tag@,
            decreases self.tag_list@.len() - i,
        {
            proof {
                assert(s[i as int] == tags_entry_view(self.tag_list@[i as int]));
            }
            if str_eq(self.tag_list[i].0.0.as_str(), tag.0.as_str()) {
                proof {
                    lemma_assoc_lookup_at(s, tag@, i as int);
                }
                return Option::Some(&self.tag_list[i].1);
            }
            i += 1;
        }
        proof {
            lemma_assoc_lookup_none(s, tag@);
        }
        Option::None
    }
}

} // verus!
