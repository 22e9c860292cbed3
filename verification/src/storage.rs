//! The in-memory store of every loaded hack, the tag table built from
//! them, and the configured content filters.

use vstd::prelude::*;

use crate::filter::Filters;
use crate::hack::Hack;
use crate::strutil::str_eq;
use crate::tags::{assoc_add, Tag, Tags};

verus! {

/// The first position holding the slug, or the length if none does.
pub open spec fn first_slug_index(s: Seq<(String, Hack)>, name: Seq<char>) -> int
    decreases s.len(),
{
    if s.len() == 0 {
        0
    } else if s[0].0@ == name {
        0
    } else {
        1 + first_slug_index(s.skip(1), name)
    }
}

proof fn lemma_first_slug_index(s: Seq<(String, Hack)>, name: Seq<char>, i: int)
    requires
        0 <= i < s.len(),
        s[i].0@ == name,
        forall|j: int| 0 <= j < i ==> s[j].0@ != name,
    ensures
        first_slug_index(s, name) == i,
    decreases i,
{
    if i > 0 {
        assert(forall|j: int| 0 <= j < i - 1 ==> s.skip(1)[j] == s[j + 1]);
        lemma_first_slug_index(s.skip(1), name, i - 1);
    }
}

/// The tag table after registering `slug` under every tag of the list, in
/// order.
pub open spec fn spec_register_tags(
    tags: Seq<(Seq<char>, Seq<Seq<char>>)>,
    ts: Seq<Tag>,
    slug: Seq<char>,
) -> Seq<(Seq<char>, Seq<Seq<char>>)>
    decreases ts.len(),
{
    if ts.len() == 0 {
        tags
    } else {
        spec_register_tags(assoc_add(tags, ts[0]@, slug), ts.skip(1), slug)
    }
}

/// Everything the site serves: the hacks by slug, the content filters,
/// and the tag table.
pub struct Storage {
    /// The loaded hacks, keyed by slug; no two entries share a slug.
    pub hacks: Vec<(String, Hack)>,
    pub filters: Filters,
    pub tags: Tags,
}

impl Storage {
    /// The slugs of the loaded hacks, in insertion order.
    pub open spec fn spec_slugs(&self) -> Seq<Seq<char>> {
        self.hacks@.map_values(|e: (String, Hack)| e.0@)
    }

    /// An empty storage.
    pub fn new() -> (r: Self)
        ensures
            r.hacks@.len() == 0,
            r.tags@.len() == 0,
            r.filters@.filters.len() == 1,
    {
        Storage { hacks: Vec::new(), filters: Filters::default(), tags: Tags::new() }
    }

    /// Register a hack under its slug: every explicit tag of the hack
    /// points at the slug, and the hack is stored, replacing a previous
    /// hack of the same slug.
    pub fn add_hack(&mut self, name: String, hack: Hack)
        ensures
            final(self).filters == old(self).filters,
            final(self).tags@ == spec_register_tags(old(self).tags@, hack.data.tags@, name@),
            ({
                let s = old(self).hacks@;
                if exists|j: int| 0 <= j < s.len() && #[trigger] s[j].0@ == name@ {
                    final(self).hacks@ == s.update(first_slug_index(s, name@), (name, hack))
                } else {
                    final(self).hacks@ == s.push((name, hack))
                }
            }),
    {
        let ghost tags0 = self.tags@;
        let ghost ts = hack.data.tags@;
        let ghost snap_hacks = self.hacks@;
        proof {
            assert(ts.skip(0) =~= ts);
        }
        let mut k: usize = 0;
        while k < hack.data.tags.len()
            invariant
                0 <= k <= ts.len(),
                ts == hack.data.tags@,
                spec_register_tags(self.tags@, ts.skip(k as int), name@) == spec_register_tags(
                    tags0,
                    ts,
                    name@,
                ),
                self.hacks@ == snap_hacks,
                snap_hacks == old(self).hacks@,
                self.filters == old(self).filters,
                tags0 == old(self).tags@,
            decreases ts.len() - k,
        {
            proof {
                assert(ts.skip(k as int)[0] == ts[k as int]);
                assert(ts.skip(k as int).skip(1) =~= ts.skip(k as int + 1));
            }
            self.tags.add_hack_with_tag(&hack.data.tags[k], name.clone());
            k += 1;
        }
        let mut i: usize = 0;
        while i < self.hacks.len()
            invariant
                0 <= i <= self.hacks@.len(),
                self.hacks@ == snap_hacks,
                snap_hacks == old(self).hacks@,
                self.filters == old(self).filters,
                self.tags@ == spec_register_tags(old(self).tags@, hack.data.tags@, name@),
                forall|j: int| 0 <= j < i ==> #[trigger] snap_hacks[j].0@ != name@,
            decreases self.hacks@.len() - i,
        {
            if str_eq(self.hacks[i].0.as_str(), name.as_str()) {
                proof {
                    lemma_first_slug_index(snap_hacks, name@, i as int);
                }
                self.hacks[i] = (name, hack);
                return ;
            }
            i += 1;
        }
        self.hacks.push((name, hack));
    }

    /// The hack registered under `slug`, if any.
    pub fn get_hack(&self, slug: &str) -> (r: Option<&Hack>)
        ensures
            match r {
                Option::Some(h) => {
                    let i = first_slug_index(self.hacks@, slug@);
                    &&& 0 <= i < self.hacks@.len()
                    &&& self.hacks@[i].0@ == slug@
                    &&& *h == self.hacks@[i].1
                },
                Option::None => forall|j: int|
                    0 <= j < self.hacks@.len() ==> #[trigger] self.hacks@[j].0@ != slug@,
            },
    {
        let mut i: usize = 0;
        while i < self.hacks.len()
            invariant
                0 <= i <= self.hacks@.len(),
                forall|j: int| 0 <= j < i ==> #[trigger] self.hacks@[j].0@ != slug@,
            decreases self.hacks@.len() - i,
        {
            if str_eq(self.hacks[i].0.as_str(), slug) {
                proof {
                    lemma_first_slug_index(self.hacks@, slug@, i as int);
                }
                return Option::Some(&self.hacks[i].1);
            }
            i += 1;
        }
        Option::None
    }
}

impl Default for Storage {
    fn default() -> (r: Self)
        ensures
            r.hacks@.len() == 0,
            r.tags@.len() == 0,
    {
        Storage { hacks: Vec::new(), filters: Filters::default(), tags: Tags::new() }
    }
}

} // verus!
