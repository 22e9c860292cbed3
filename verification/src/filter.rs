//! Content filters: a filter hides every hack that carries one of its
//! keywords as a tag.

use vstd::prelude::*;

use crate::hack::{tag_views, Hack};
use crate::tags::Tag;
use crate::strutil::{
    assoc_find, clone_string_vec, lemma_assoc_find_at, lemma_assoc_find_none, str_eq, str_views,
};

verus! {

/// A named content filter.
#[derive(Debug)]
pub struct Filter {
    pub label: String,
    /// A hack carrying any of these tags is hidden.
    pub hide: Vec<String>,
}

/// Model of a filter.
#[verifier::ext_equal]
pub ghost struct FilterModel {
    pub label: Seq<char>,
    pub hide: Seq<Seq<char>>,
}

impl View for Filter {
    type V = FilterModel;

    open spec fn view(&self) -> FilterModel {
        FilterModel { label: self.label@, hide: str_views(self.hide@) }
    }
}

/// Whether a hack with the given tags passes a filter with the given
/// hidden keywords.
pub open spec fn spec_pass_filter(hide: Seq<Seq<char>>, tags: Seq<Seq<char>>) -> bool {
    forall|j: int| 0 <= j < hide.len() ==> !tags.contains(#[trigger] hide[j])
}

impl Filter {
    /// True when the hack carries none of the filter's hidden keywords as
    /// an explicit tag.
    pub fn pass_filter(&self, hack: &Hack) -> (r: bool)
        ensures
            r == spec_pass_filter(self@.hide, tag_views(hack.data.tags@)),
    {
        let mut j: usize = 0;
        while j < self.hide.len()
            invariant
                0 <= j <= self.hide@.len(),
                forall|k: int|
                    0 <= k < j ==> !tag_views(hack.data.tags@).contains(
                        #[trigger] str_views(self.hide@)[k],
                    ),
            decreases self.hide@.len() - j,
        {
            proof {
                assert(str_views(self.hide@)[j as int] == self.hide@[j as int]@);
            }
            let keyword = Tag(self.hide[j].clone());
            if crate::hack::vec_contains_tag(&hack.data.tags, &keyword) {
                return false;
            }
            j += 1;
        }
        true
    }

    /// A content-preserving copy.
    pub fn duplicate(&self) -> (r: Self)
        ensures
            r@ == self@,
    {
        let r = Filter { label: self.label.clone(), hide: clone_string_vec(&self.hide) };
        proof {
            assert(r@ =~= self@);
        }
        r
    }
}

impl Default for Filter {
    /// The built-in filter: hide suggestive and explicit content.
    fn default() -> (r: Self)
        ensures
            r@.label == "Default"@,
            r@.hide == seq!["suggestive"@, "explicit"@],
    {
        let mut hide_list: Vec<String> = Vec::new();
        hide_list.push("suggestive".to_owned());
        hide_list.push("explicit".to_owned());
        let r = Filter { label: "Default".to_owned(), hide: hide_list };
        proof {
            assert(r@.hide =~= seq!["suggestive"@, "explicit"@]);
        }
        r
    }
}

/// The named filters of the site, and which of them is the default.
#[derive(Debug)]
pub struct Filters {
    filters: Vec<(String, Filter)>,
    default: String,
}

/// Model of the filter table.
#[verifier::ext_equal]
pub ghost struct FiltersModel {
    pub filters: Seq<(Seq<char>, FilterModel)>,
    pub default: Seq<char>,
}

impl View for Filters {
    type V = FiltersModel;

    closed spec fn view(&self) -> FiltersModel {
        FiltersModel {
            filters: self.filters@.map_values(|e: (String, Filter)| (e.0@, e.1@)),
            default: self.default@,
        }
    }
}

impl Filters {
    /// A filter table from its entries and the slug of the default filter.
    pub fn from_entries(filters: Vec<(String, Filter)>, default: String) -> (r: Self)
        ensures
            r@.filters == filters@.map_values(|e: (String, Filter)| (e.0@, e.1@)),
            r@.default == default@,
    {
        Filters { filters, default }
    }

    /// The filter registered under `slug`, if any.
    pub fn get(&self, slug: &str) -> (r: Option<Filter>)
        ensures
            match r {
                Option::Some(f) => assoc_find(self@.filters, slug@) == Option::Some(f@),
                Option::None => assoc_find(self@.filters, slug@) is None,
            },
    {
        let ghost s = self@.filters;
        let mut i: usize = 0;
        while i < self.filters.len()
            invariant
                0 <= i <= self.filters@.len(),
                s == self@.filters,
                forall|j: int| 0 <= j < i ==> s[j].0 != slug@,
            decreases self.filters@.len() - i,
        {
            proof {
                assert(s[i as int] == (self.filters@[i as int].0@, self.filters@[i as int].1@));
            }
            if str_eq(self.filters[i].0.as_str(), slug) {
                proof {
                    lemma_assoc_find_at(s, slug@, i as int);
                }
                return Option::Some(self.filters[i].1.duplicate());
            }
            i += 1;
        }
        proof {
            lemma_assoc_find_none(s, slug@);
        }
        Option::None
    }

    /// The filter registered as the default, or the built-in filter when
    /// the registration is dangling.
    pub fn get_default(&self) -> (r: Filter)
        ensures
            match assoc_find(self@.filters, self@.default) {
                Option::Some(f) => r@ == f,
                Option::None => r@.label == "Default"@ && r@.hide == seq![
                    "suggestive"@,
                    "explicit"@,
                ],
            },
    {
        let slug = self.default.clone();
        match self.get(slug.as_str()) {
            Option::Some(f) => f,
            Option::None => Filter::default(),
        }
    }
}

impl Default for Filters {
    /// One entry: the built-in filter, registered as the default.
    fn default() -> (r: Self)
        ensures
            r@.filters.len() == 1,
            r@.filters[0].0 == "default"@,
            r@.filters[0].1.label == "Default"@,
            r@.filters[0].1.hide == seq!["suggestive"@, "explicit"@],
            r@.default == "default"@,
    {
        let mut filters: Vec<(String, Filter)> = Vec::new();
        filters.push(("default".to_owned(), Filter::default()));
        Filters { filters, default: "default".to_owned() }
    }
}

} // verus!
