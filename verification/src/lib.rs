//! A feed aggregation library: normalizes syndication feeds arriving in two
//! wire schemas into one canonical form, merges freshly fetched items into a
//! persisted per-source state keyed by item GUID, and synthesizes a single
//! sorted, truncated output feed in the canonical XML wire form.

pub mod codec;
pub mod merge;
pub mod output;
pub mod relocate;
pub mod scan;
pub mod sort;
pub mod structs;
pub mod timefmt;
pub mod xml;
pub mod text;

use vstd::prelude::*;

verus! {

/// True when `c` is an ASCII decimal digit.
pub open spec fn is_digit_char(c: char) -> bool {
    '0' <= c && c <= '9'
}

/// Numeric value of an ASCII decimal digit.
pub open spec fn digit_val(c: char) -> int {
    c as int - '0' as int
}

} // verus!
