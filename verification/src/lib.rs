//! Client-side conflict resolution for a multi-master document store,
//! together with the tag and query engine of the hack archive it serves.
//!
//! The store itself (wire protocol, revision trees, storage engine) is an
//! external collaborator; this crate holds the verified logic around it:
//! the last-writer-wins field, the merge capability, the conflict
//! resolution flows and the domain entity, plus the in-memory tag storage.

use vstd::prelude::*;

pub mod client;
pub mod error;
pub mod field_with_time;
pub mod filter;
pub mod hack;
pub mod mergeable;
pub mod message;
pub mod model;
pub mod query;
pub mod resolution;
pub mod storage;
pub mod strutil;
pub mod taginfo;
pub mod tags;
pub mod timestamp;

use strutil::{str_contains_char, str_eq};

verus! {

/// True when the string contains the character `c`.
pub open spec fn seq_contains_char(s: Seq<char>, c: char) -> bool {
    exists|i: int| 0 <= i < s.len() && s[i] == c
}

/// Whether a hack slug is reserved and may not be used for a hack page.
pub open spec fn spec_is_illegal_hack_slug(s: Seq<char>) -> bool {
    ||| seq_contains_char(s, '/')
    ||| s == "Oswald-Medium.ttf"@
    ||| s == "style.css"@
    ||| s == "majority"@
    ||| s == "tagged"@
    ||| s == "create_majority_token"@
    ||| s == "disconnect_majority_token"@
    ||| s == "connect_majority_token"@
    ||| s == "index"@
    ||| s == "reload"@
    ||| s == "faq"@
    ||| s == "information"@
    ||| s == "search"@
    ||| s == "filter"@
    ||| s == "download"@
    ||| s == "marius"@
    ||| s == "pokemon-mystery-dungeon"@
    ||| s == "adventurers"@
    ||| s == "explorers"@
    ||| s == "super"@
    ||| s == "gates"@
}

/// Return true if the hack id is illegal (reserved for, or already used by, a page).
pub fn is_illegal_hack_slug(name: &str) -> (r: bool)
    ensures
        r == spec_is_illegal_hack_slug(name@),
{
    if str_contains_char(name, '/') {
        true
    } else {
        str_eq(name, "Oswald-Medium.ttf") || str_eq(name, "style.css") || str_eq(name, "majority")
            || str_eq(name, "tagged") || str_eq(name, "create_majority_token") || str_eq(
            name,
            "disconnect_majority_token",
        ) || str_eq(name, "connect_majority_token") || str_eq(name, "index") || str_eq(
            name,
            "reload",
        ) || str_eq(name, "faq") || str_eq(name, "information") || str_eq(name, "search")
            || str_eq(name, "filter") || str_eq(name, "download") || str_eq(name, "marius")
            || str_eq(name, "pokemon-mystery-dungeon") || str_eq(name, "adventurers") || str_eq(
            name,
            "explorers",
        ) || str_eq(name, "super") || str_eq(name, "gates")
    }
}

/// Startup secrets handed to the web layer.
pub struct Secrets {
    reload_page_password: String,
}

impl Secrets {
    /// The password this value was built from.
    pub closed spec fn spec_password(&self) -> Seq<char> {
        self.reload_page_password@
    }

    /// Wrap the password that guards the storage-reload page.
    pub fn new(reload_page_password: String) -> (r: Self)
        ensures
            r.spec_password() == reload_page_password@,
    {
        Self { reload_page_password }
    }

    /// The password that guards the storage-reload page.
    pub fn reload_page_password(&self) -> (r: &str)
        ensures
            r@ == self.spec_password(),
    {
        self.reload_page_password.as_str()
    }
}

} // verus!
