//! In-memory description of one hack: its metadata, its downloadable
//! files, and the tags it carries (explicit and implied).

use vstd::prelude::*;

use crate::strutil::{
    assoc_find, lemma_lex_le_total, lemma_lex_le_trans, lex_le, str_eq, str_le, str_views,
    vec_contains_str,
};
use crate::taginfo::{SingleTagInfo, TagInfo};
use crate::tags::Tag;
use vstd::multiset::Multiset;

verus! {

/// The contents of each tag in a list, in order.
pub open spec fn tag_views(s: Seq<Tag>) -> Seq<Seq<char>> {
    s.map_values(|t: Tag| t@)
}

/// Whether some tag in the list has the given contents.
pub fn vec_contains_tag(v: &Vec<Tag>, x: &Tag) -> (r: bool)
    ensures
        r == tag_views(v@).contains(x@),
{
    let mut i: usize = 0;
    while i < v.len()
        invariant
            0 <= i <= v@.len(),
            forall|j: int| 0 <= j < i ==> tag_views(v@)[j] != x@,
        decreases v@.len() - i,
    {
        assert(tag_views(v@)[i as int] == v@[i as int]@);
        if str_eq(v[i].0.as_str(), x.0.as_str()) {
            assert(tag_views(v@).contains(x@));
            return true;
        }
        i += 1;
    }
    assert(forall|j: int| 0 <= j < tag_views(v@).len() ==> tag_views(v@)[j] != x@);
    false
}

/// Add to `acc` every tag of `more` it does not already hold.
pub fn extend_tags_unique(acc: &mut Vec<Tag>, more: &Vec<Tag>)
    ensures
        forall|t: Seq<char>|
            #[trigger] tag_views(final(acc)@).contains(t) <==> tag_views(old(acc)@).contains(t)
                || tag_views(more@).contains(t),
{
    let mut j: usize = 0;
    while j < more.len()
        invariant
            0 <= j <= more@.len(),
            forall|t: Seq<char>|
                #[trigger] tag_views(acc@).contains(t) <==> tag_views(old(acc)@).contains(t)
                    || tag_views(more@).take(j as int).contains(t),
        decreases more@.len() - j,
    {
        let ghost pre = tag_views(acc@);
        let ghost cur = more@[j as int]@;
        proof {
            assert(tag_views(more@)[j as int] == cur);
        }
        if !vec_contains_tag(acc, &more[j]) {
            acc.push(Tag(more[j].0.clone()));
            proof {
                assert(tag_views(acc@) =~= pre.push(cur));
                assert forall|t: Seq<char>| #[trigger]
                    tag_views(acc@).contains(t) <==> pre.contains(t) || t == cur by {
                    if tag_views(acc@).contains(t) {
                        let k = choose|k: int|
                            0 <= k < tag_views(acc@).len() && tag_views(acc@)[k] == t;
                        if k < pre.len() {
                            assert(pre.contains(t));
                        }
                    }
                    if pre.contains(t) {
                        let k = choose|k: int| 0 <= k < pre.len() && pre[k] == t;
                        assert(tag_views(acc@)[k] == t);
                    }
                    if t == cur {
                        assert(tag_views(acc@)[pre.len() as int] == t);
                    }
                }
            }
        }
        proof {
            let taken = tag_views(more@).take(j as int);
            let taken1 = tag_views(more@).take(j as int + 1);
            assert(taken1 =~= taken.push(cur));
            assert forall|t: Seq<char>| #[trigger]
                taken1.contains(t) <==> taken.contains(t) || t == cur by {
                if taken1.contains(t) {
                    let k = choose|k: int| 0 <= k < taken1.len() && taken1[k] == t;
                    if k < taken.len() {
                        assert(taken.contains(t));
                    }
                }
                if taken.contains(t) {
                    let k = choose|k: int| 0 <= k < taken.len() && taken[k] == t;
                    assert(taken1[k] == t);
                }
                if t == cur {
                    assert(taken1[taken.len() as int] == t);
                }
            }
        }
        j += 1;
    }
    proof {
        assert(tag_views(more@).take(more@.len() as int) =~= tag_views(more@));
    }
}

/// Metadata of a hack, as read from its description file.
pub struct HackData {
    pub name: String,
    pub authors: Vec<String>,
    pub description: Option<String>,
    /// The tags given explicitly; no two entries hold the same tag.
    pub tags: Vec<Tag>,
    pub source: Option<String>,
    pub skytemple_db_id: Option<String>,
    pub screenshots: Vec<String>,
    /// Link label and target, in listing order.
    pub links: Vec<(String, String)>,
    pub files: Vec<HackFile>,
}

/// One downloadable file of a hack.
pub struct HackFile {
    pub label: String,
    pub description: Option<String>,
    /// The tags given explicitly for this file.
    pub tags: Vec<Tag>,
    /// The tags implied by the explicit ones.
    pub implied_tags: Vec<Tag>,
    pub filename: String,
}

impl HackFile {
    /// Every tag of this file, explicit or implied.
    pub fn get_all_tags(&self) -> (r: Vec<Tag>)
        ensures
            forall|t: Seq<char>|
                #[trigger] tag_views(r@).contains(t) <==> tag_views(self.tags@).contains(t)
                    || tag_views(self.implied_tags@).contains(t),
    {
        let mut r: Vec<Tag> = Vec::new();
        extend_tags_unique(&mut r, &self.tags);
        extend_tags_unique(&mut r, &self.implied_tags);
        r
    }
}

/// A hack with its metadata, its implied tags and the folder its files
/// live in.
pub struct Hack {
    pub data: HackData,
    /// The tags implied by the hack's explicit tags.
    pub implied_tags: Vec<Tag>,
    /// Where the hack's files live, relative to the storage root.
    pub folder: String,
}

/// What [`Hack::all_tags`] gathers: a tag the hack carries explicitly, by
/// implication, or through one of its files' implied tags.
pub open spec fn spec_carries_tag(h: &Hack, t: Seq<char>) -> bool {
    ||| tag_views(h.data.tags@).contains(t)
    ||| tag_views(h.implied_tags@).contains(t)
    ||| exists|i: int|
        0 <= i < h.data.files@.len() && tag_views(
            #[trigger] h.data.files@[i].implied_tags@,
        ).contains(t)
}

/// The file names a hack's metadata accounts for: its screenshots, its
/// downloadable files, and its own description file.
pub open spec fn spec_references_file(h: &Hack, name: Seq<char>) -> bool {
    ||| str_views(h.data.screenshots@).contains(name)
    ||| exists|i: int|
        0 <= i < h.data.files@.len() && #[trigger] h.data.files@[i].filename@ == name
    ||| name == "hack.json"@
}

impl Hack {
    /// Split the files actually present in the hack's folder against the
    /// metadata: which present files nothing references (everything in the
    /// folder is public, so stray files are reported), and which
    /// referenced files are absent.  The folder's generated `index.html`
    /// is never counted as present.
    pub fn audit_files(&self, present: &Vec<String>) -> (r: (Vec<String>, Vec<String>))
        ensures
            forall|n: Seq<char>|
                #[trigger] str_views(r.0@).contains(n) <==> str_views(present@).contains(n) && n
                    != "index.html"@ && !spec_references_file(self, n),
            forall|n: Seq<char>|
                #[trigger] str_views(r.1@).contains(n) <==> spec_references_file(self, n) && !(
                str_views(present@).contains(n) && n != "index.html"@),
    {
        let mut referenced: Vec<String> = Vec::new();
        let mut i: usize = 0;
        while i < self.data.screenshots.len()
            invariant
                0 <= i <= self.data.screenshots@.len(),
                forall|n: Seq<char>|
                    #[trigger] str_views(referenced@).contains(n) <==> str_views(
                        self.data.screenshots@,
                    ).take(i as int).contains(n),
            decreases self.data.screenshots@.len() - i,
        {
            let ghost pre = str_views(referenced@);
            let ghost cur = self.data.screenshots@[i as int]@;
            proof {
                assert(str_views(self.data.screenshots@)[i as int] == cur);
            }
            if !vec_contains_str(&referenced, self.data.screenshots[i].as_str()) {
                referenced.push(self.data.screenshots[i].clone());
                proof {
                    assert(str_views(referenced@) =~= pre.push(cur));
                    lemma_contains_push_str(pre, cur);
                }
            }
            proof {
                let taken = str_views(self.data.screenshots@).take(i as int);
                assert(str_views(self.data.screenshots@).take(i as int + 1) =~= taken.push(cur));
                lemma_contains_push_str(taken, cur);
            }
            i += 1;
        }
        proof {
            assert(str_views(self.data.screenshots@).take(self.data.screenshots@.len() as int)
                =~= str_views(self.data.screenshots@));
        }
        let mut i: usize = 0;
        while i < self.data.files.len()
            invariant
                0 <= i <= self.data.files@.len(),
                forall|n: Seq<char>|
                    #[trigger] str_views(referenced@).contains(n) <==> str_views(
                        self.data.screenshots@,
                    ).contains(n) || exists|k: int|
                        0 <= k < i && #[trigger] self.data.files@[k].filename@ == n,
            decreases self.data.files@.len() - i,
        {
            let ghost pre = str_views(referenced@);
            let ghost cur = self.data.files@[i as int].filename@;
            if !vec_contains_str(&referenced, self.data.files[i].filename.as_str()) {
                referenced.push(self.data.files[i].filename.clone());
                proof {
                    assert(str_views(referenced@) =~= pre.push(cur));
                    lemma_contains_push_str(pre, cur);
                }
            }
            i += 1;
        }
        let ghost pre = str_views(referenced@);
        if !vec_contains_str(&referenced, "hack.json") {
            referenced.push("hack.json".to_owned());
            proof {
                assert(str_views(referenced@) =~= pre.push("hack.json"@));
                lemma_contains_push_str(pre, "hack.json"@);
            }
        }
        proof {
            assert forall|n: Seq<char>| #[trigger]
                str_views(referenced@).contains(n) <==> spec_references_file(self, n) by {}
        }
        let mut unreferenced: Vec<String> = Vec::new();
        let mut i: usize = 0;
        while i < present.len()
            invariant
                0 <= i <= present@.len(),
                forall|n: Seq<char>|
                    #[trigger] str_views(referenced@).contains(n) <==> spec_references_file(
                        self,
                        n,
                    ),
                forall|n: Seq<char>|
                    #[trigger] str_views(unreferenced@).contains(n) <==> str_views(
                        present@,
                    ).take(i as int).contains(n) && n != "index.html"@ && !spec_references_file(
                        self,
                        n,
                    ),
            decreases present@.len() - i,
        {
            let ghost pre = str_views(unreferenced@);
            let ghost cur = present@[i as int]@;
            proof {
                assert(str_views(present@)[i as int] == cur);
            }
            let is_index = str_eq(present[i].as_str(), "index.html");
            if !is_index && !vec_contains_str(&referenced, present[i].as_str()) {
                unreferenced.push(present[i].clone());
                proof {
                    assert(str_views(unreferenced@) =~= pre.push(cur));
                    lemma_contains_push_str(pre, cur);
                }
            }
            proof {
                let taken = str_views(present@).take(i as int);
                assert(str_views(present@).take(i as int + 1) =~= taken.push(cur));
                lemma_contains_push_str(taken, cur);
            }
            i += 1;
        }
        proof {
            assert(str_views(present@).take(present@.len() as int) =~= str_views(present@));
        }
        let mut missing: Vec<String> = Vec::new();
        let mut i: usize = 0;
        while i < referenced.len()
            invariant
                0 <= i <= referenced@.len(),
                forall|n: Seq<char>|
                    #[trigger] str_views(referenced@).contains(n) <==> spec_references_file(
                        self,
                        n,
                    ),
                forall|n: Seq<char>|
                    #[trigger] str_views(missing@).contains(n) <==> str_views(referenced@).take(
                        i as int,
                    ).contains(n) && !(str_views(present@).contains(n) && n != "index.html"@),
            decreases referenced@.len() - i,
        {
            let ghost pre = str_views(missing@);
            let ghost cur = referenced@[i as int]@;
            proof {
                assert(str_views(referenced@)[i as int] == cur);
            }
            let is_index = str_eq(referenced[i].as_str(), "index.html");
            if is_index || !vec_contains_str(present, referenced[i].as_str()) {
                missing.push(referenced[i].clone());
                proof {
                    assert(str_views(missing@) =~= pre.push(cur));
                    lemma_contains_push_str(pre, cur);
                }
            }
            proof {
                let taken = str_views(referenced@).take(i as int);
                assert(str_views(referenced@).take(i as int + 1) =~= taken.push(cur));
                lemma_contains_push_str(taken, cur);
            }
            i += 1;
        }
        proof {
            assert(str_views(referenced@).take(referenced@.len() as int) =~= str_views(
                referenced@,
            ));
            assert forall|n: Seq<char>|
                #[trigger] str_views(missing@).contains(n) implies spec_references_file(self, n)
                && !(str_views(present@).contains(n) && n != "index.html"@) by {}
        }
        (unreferenced, missing)
    }

    /// Every tag the hack carries: its explicit tags, its implied tags,
    /// and each file's implied tags.
    pub fn all_tags(&self) -> (r: Vec<Tag>)
        ensures
            forall|t: Seq<char>| #[trigger] tag_views(r@).contains(t) <==> spec_carries_tag(self, t),
    {
        let mut r: Vec<Tag> = Vec::new();
        extend_tags_unique(&mut r, &self.data.tags);
        extend_tags_unique(&mut r, &self.implied_tags);
        let mut i: usize = 0;
        while i < self.data.files.len()
            invariant
                0 <= i <= self.data.files@.len(),
                forall|t: Seq<char>|
                    #[trigger] tag_views(r@).contains(t) <==> tag_views(
                        self.data.tags@,
                    ).contains(t) || tag_views(self.implied_tags@).contains(t) || exists|k: int|
                        0 <= k < i && tag_views(
                            #[trigger] self.data.files@[k].implied_tags@,
                        ).contains(t),
            decreases self.data.files@.len() - i,
        {
            extend_tags_unique(&mut r, &self.data.files[i].implied_tags);
            i += 1;
        }
        r
    }
}

/// Sort tags by their contents.
pub fn sort_tags_lex(tags: Vec<Tag>) -> (r: Vec<Tag>)
    ensures
        r@.to_multiset() == tags@.to_multiset(),
        forall|x: int, y: int|
            0 <= x < y < r@.len() ==> lex_le(#[trigger] r@[x]@, #[trigger] r@[y]@),
{
    broadcast use vstd::seq_lib::group_to_multiset_ensures;

    let ghost all = tags@;
    let mut rest = tags;
    let mut out: Vec<Tag> = Vec::new();
    while rest.len() > 0
        invariant
            out@.to_multiset().add(rest@.to_multiset()) == all.to_multiset(),
            forall|x: int, y: int|
                0 <= x < y < out@.len() ==> lex_le(#[trigger] out@[x]@, #[trigger] out@[y]@),
        decreases rest@.len(),
    {
        let ghost rest0 = rest@;
        let x = rest.remove(0);
        proof {
            rest0.to_multiset_ensures();
            assert(rest0.contains(x));
            assert(rest0.to_multiset().count(x) > 0);
            assert(rest@ == rest0.remove(0));
            assert(rest0.remove(0).to_multiset() =~= rest0.to_multiset().remove(x));
        }
        let mut p: usize = 0;
        while p < out.len() && !str_le(x.0.as_str(), out[p].0.as_str())
            invariant
                0 <= p <= out@.len(),
                forall|k: int| 0 <= k < p ==> !lex_le(x@, #[trigger] out@[k]@),
            decreases out@.len() - p,
        {
            p += 1;
        }
        let ghost out0 = out@;
        proof {
            assert forall|k: int| 0 <= k < p implies lex_le(#[trigger] out0[k]@, x@) by {
                lemma_lex_le_total(x@, out0[k]@);
            }
        }
        out.insert(p, x);
        proof {
            out@.to_multiset_ensures();
            assert(out@.remove(p as int) =~= out0);
            assert(out@.remove(p as int).to_multiset() =~= out@.to_multiset().remove(
                out@[p as int],
            ));
            assert(out@[p as int] == x);
            assert(out@.contains(x));
            assert(out@.to_multiset().count(x) > 0);
            assert(out@.to_multiset() =~= out0.to_multiset().insert(x));
            assert forall|ix: int, iy: int| 0 <= ix < iy < out@.len() implies lex_le(
                #[trigger] out@[ix]@,
                #[trigger] out@[iy]@,
            ) by {
                if iy == p {
                    assert(out@[ix] == out0[ix]);
                } else if ix == p {
                    assert(out@[iy] == out0[iy - 1]);
                    assert((p as int) < out0.len());
                    if iy - 1 > p {
                        assert(lex_le(out0[p as int]@, out0[iy - 1]@));
                        lemma_lex_le_trans(x@, out0[p as int]@, out0[iy - 1]@);
                    } else {
                        assert(out@[iy] == out0[p as int]);
                        assert(lex_le(x@, out0[p as int]@));
                    }
                } else if ix < p && iy < p {
                    assert(out@[ix] == out0[ix]);
                    assert(out@[iy] == out0[iy]);
                } else if ix < p {
                    assert(out@[ix] == out0[ix]);
                    assert(out@[iy] == out0[iy - 1]);
                    if iy - 1 == ix {
                    } else {
                        assert(lex_le(out0[ix]@, out0[iy - 1]@));
                    }
                } else {
                    assert(out@[ix] == out0[ix - 1]);
                    assert(out@[iy] == out0[iy - 1]);
                }
            }
        }
    }
    proof {
        assert(rest@.to_multiset() =~= Multiset::<Tag>::empty());
        assert(out@.to_multiset() =~= all.to_multiset());
    }
    out
}

/// Whether a tag belongs to the category restricting content to majors.
pub open spec fn spec_is_major_only(ti: crate::taginfo::TagInfoModel, t: Seq<char>) -> bool {
    match assoc_find(ti.tags, t) {
        Option::None => false,
        Option::Some(info) => info.category == Option::Some("majoronly"@),
    }
}

impl SingleTagInfo {
    /// A content-preserving copy.
    pub fn duplicate(&self) -> (r: Self)
        ensures
            r@ == self@,
    {
        let category = match &self.category {
            Option::Some(c) => Option::Some(c.clone()),
            Option::None => Option::None,
        };
        let description = match &self.description {
            Option::Some(d) => Option::Some(d.clone()),
            Option::None => Option::None,
        };
        let label = match &self.label {
            Option::Some(l) => Option::Some(l.clone()),
            Option::None => Option::None,
        };
        let mut implies: Vec<Tag> = Vec::new();
        let mut i: usize = 0;
        while i < self.implies.len()
            invariant
                0 <= i <= self.implies@.len(),
                implies@.len() == i,
                forall|k: int| 0 <= k < i ==> #[trigger] implies@[k]@ == self.implies@[k]@,
            decreases self.implies@.len() - i,
        {
            implies.push(Tag(self.implies[i].0.clone()));
            i += 1;
        }
        let r = SingleTagInfo {
            category,
            description,
            implies,
            priority: self.priority,
            label,
        };
        proof {
            assert(tag_views(r.implies@) =~= tag_views(self.implies@));
            assert(r@ =~= self@);
        }
        r
    }
}

impl Hack {
    /// The tags of this hack that restrict content to majors, with their
    /// descriptions, ordered by tag contents.
    pub fn get_major_only_tags(&self, taginfo: &TagInfo) -> (r: Vec<(Tag, SingleTagInfo)>)
        ensures
            forall|k: int|
                0 <= k < r@.len() ==> {
                    &&& spec_carries_tag(self, #[trigger] r@[k].0@)
                    &&& assoc_find(taginfo@.tags, r@[k].0@) == Option::Some(r@[k].1@)
                    &&& spec_is_major_only(taginfo@, r@[k].0@)
                },
            forall|t: Seq<char>|
                spec_carries_tag(self, t) && spec_is_major_only(taginfo@, t) ==> exists|k: int|
                    0 <= k < r@.len() && #[trigger] r@[k].0@ == t,
            forall|x: int, y: int|
                0 <= x < y < r@.len() ==> lex_le(#[trigger] r@[x].0@, #[trigger] r@[y].0@),
    {
        broadcast use vstd::seq_lib::group_to_multiset_ensures;

        let all = self.all_tags();
        let ghost all0 = all@;
        let sorted = sort_tags_lex(all);
        proof {
            all0.to_multiset_ensures();
            sorted@.to_multiset_ensures();
            assert forall|t: Seq<char>|
                #[trigger] tag_views(sorted@).contains(t) <==> tag_views(all0).contains(t) by {
                if tag_views(sorted@).contains(t) {
                    let k = choose|k: int|
                        0 <= k < sorted@.len() && tag_views(sorted@)[k] == t;
                    assert(sorted@.contains(sorted@[k]));
                    assert(sorted@.to_multiset().count(sorted@[k]) > 0);
                    assert(all0.contains(sorted@[k]));
                    let j = choose|j: int| 0 <= j < all0.len() && all0[j] == sorted@[k];
                    assert(tag_views(all0)[j] == t);
                }
                if tag_views(all0).contains(t) {
                    let k = choose|k: int| 0 <= k < all0.len() && tag_views(all0)[k] == t;
                    assert(all0.contains(all0[k]));
                    assert(all0.to_multiset().count(all0[k]) > 0);
                    assert(sorted@.contains(all0[k]));
                    let j = choose|j: int| 0 <= j < sorted@.len() && sorted@[j] == all0[k];
                    assert(tag_views(sorted@)[j] == t);
                }
            }
        }
        let mut r: Vec<(Tag, SingleTagInfo)> = Vec::new();
        let mut i: usize = 0;
        while i < sorted.len()
            invariant
                0 <= i <= sorted@.len(),
                forall|t: Seq<char>|
                    #[trigger] tag_views(sorted@).contains(t) <==> spec_carries_tag(self, t),
                forall|x: int, y: int|
                    0 <= x < y < sorted@.len() ==> lex_le(
                        #[trigger] sorted@[x]@,
                        #[trigger] sorted@[y]@,
                    ),
                forall|k: int|
                    0 <= k < r@.len() ==> {
                        &&& spec_carries_tag(self, #[trigger] r@[k].0@)
                        &&& assoc_find(taginfo@.tags, r@[k].0@) == Option::Some(r@[k].1@)
                        &&& spec_is_major_only(taginfo@, r@[k].0@)
                    },
                forall|j: int|
                    0 <= j < i && spec_is_major_only(taginfo@, #[trigger] sorted@[j]@)
                        ==> exists|k: int| 0 <= k < r@.len() && #[trigger] r@[k].0@ == sorted@[j]@,
                forall|k: int, m: int|
                    0 <= k < r@.len() && i <= m < sorted@.len() ==> lex_le(
                        #[trigger] r@[k].0@,
                        #[trigger] sorted@[m]@,
                    ),
                forall|x: int, y: int|
                    0 <= x < y < r@.len() ==> lex_le(#[trigger] r@[x].0@, #[trigger] r@[y].0@),
            decreases sorted@.len() - i,
        {
            let ghost r0 = r@;
            let tag = &sorted[i];
            let mut pushed = false;
            match taginfo.get_tag(tag) {
                Option::Some(info) => {
                    let is_major = match &info.category {
                        Option::Some(c) => str_eq(c.as_str(), "majoronly"),
                        Option::None => false,
                    };
                    if is_major {
                        let pair = (Tag(tag.0.clone()), info.duplicate());
                        r.push(pair);
                        pushed = true;
                    }
                },
                Option::None => {},
            }
            proof {
                assert(tag_views(sorted@)[i as int] == sorted@[i as int]@);
                assert(tag_views(sorted@).contains(sorted@[i as int]@));
                if pushed {
                    assert(r@ == r0.push(r@[r0.len() as int]));
                    assert(r@[r0.len() as int].0@ == sorted@[i as int]@);
                } else {
                    assert(!spec_is_major_only(taginfo@, sorted@[i as int]@));
                }
                assert forall|j: int|
                    0 <= j < i + 1 && spec_is_major_only(
                        taginfo@,
                        #[trigger] sorted@[j]@,
                    ) implies exists|k: int|
                    0 <= k < r@.len() && #[trigger] r@[k].0@ == sorted@[j]@ by {
                    if j < i {
                        let k = choose|k: int|
                            0 <= k < r0.len() && #[trigger] r0[k].0@ == sorted@[j]@;
                        assert(r@[k].0@ == sorted@[j]@);
                    } else {
                        assert(r@[r0.len() as int].0@ == sorted@[j]@);
                    }
                }
            }
            i += 1;
        }
        proof {
            assert forall|t: Seq<char>|
                spec_carries_tag(self, t) && spec_is_major_only(taginfo@, t) implies exists|k: int|
                0 <= k < r@.len() && #[trigger] r@[k].0@ == t by {
                assert(tag_views(sorted@).contains(t));
                let j = choose|j: int| 0 <= j < sorted@.len() && tag_views(sorted@)[j] == t;
                assert(sorted@[j]@ == t);
            }
        }
        r
    }

    /// Whether viewing this hack requires a majority token: true exactly
    /// when it carries a tag of the majors-only category.
    pub fn need_majority_token(&self, taginfo: &TagInfo) -> (r: bool)
        ensures
            r == exists|t: Seq<char>|
                spec_carries_tag(self, t) && #[trigger] spec_is_major_only(taginfo@, t),
    {
        let majors = self.get_major_only_tags(taginfo);
        if majors.len() > 0 {
            proof {
                assert(spec_carries_tag(self, majors@[0].0@) && spec_is_major_only(
                    taginfo@,
                    majors@[0].0@,
                ));
            }
            true
        } else {
            false
        }
    }
}

/// Membership in a pushed list of strings.
proof fn lemma_contains_push_str(s: Seq<Seq<char>>, x: Seq<char>)
    ensures
        forall|t: Seq<char>| #[trigger] s.push(x).contains(t) <==> s.contains(t) || t == x,
{
    assert forall|t: Seq<char>| #[trigger] s.push(x).contains(t) <==> s.contains(t) || t
        == x by {
        if s.push(x).contains(t) {
            let k = choose|k: int| 0 <= k < s.push(x).len() && s.push(x)[k] == t;
            if k < s.len() {
                assert(s.contains(t));
            }
        }
        if s.contains(t) {
            let k = choose|k: int| 0 <= k < s.len() && s[k] == t;
            assert(s.push(x)[k] == t);
        }
        if t == x {
            assert(s.push(x)[s.len() as int] == t);
        }
    }
}

} // verus!
