//! Core of a media-hosting backend: content classification, the
//! compress-or-store-raw decision, the record byte format, the two-namespace
//! metadata update protocol, the tag-and-visibility query engine, and the
//! retrieval, edit and delete paths over an embedded key-value store.

use vstd::prelude::*;

pub mod catalog;
pub mod classify;
pub mod codec;
pub mod compress;
pub mod config;
pub mod consistency;
pub mod error;
pub mod ident;
pub mod ingest;
pub mod mutate;
pub mod query;
pub mod records;
pub mod retrieve;
pub mod stats;
pub mod store;
pub mod tags;

verus! {

/// Checks that every character of the string is an ASCII letter or digit.
pub fn is_alphanumeric_ascii(s: &str) -> (r: bool)
    ensures
        r == crate::spec_alphanumeric(s@),
{
    let len = s.unicode_len();
    let mut i: usize = 0;
    while i < len
        invariant
            i <= len,
            len == s@.len(),
            forall|j: int| 0 <= j < i ==> #[trigger] char_alphanumeric(s@[j]),
        decreases len - i,
    {
        let c = s.get_char(i);
        let ok = ('a' <= c && c <= 'z') || ('A' <= c && c <= 'Z') || ('0' <= c && c <= '9');
        if !ok {
            assert(!char_alphanumeric(s@[i as int]));
            return false;
        }
        i += 1;
    }
    true
}

/// A character drawn from the alphanumeric ASCII range.
pub open spec fn char_alphanumeric(c: char) -> bool {
    ('a' <= c && c <= 'z') || ('A' <= c && c <= 'Z') || ('0' <= c && c <= '9')
}

/// Every character of the sequence is ASCII alphanumeric.
pub open spec fn spec_alphanumeric(s: Seq<char>) -> bool {
    forall|j: int| 0 <= j < s.len() ==> #[trigger] char_alphanumeric(s[j])
}

} // verus!
