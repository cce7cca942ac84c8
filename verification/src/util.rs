//! Reading what a request's headers say of its sender.

use vstd::prelude::*;
use crate::text::{chars_of, first_index_of};

verus! {

/// Separates the addresses that a forwarding header lists.
pub const LIST_SEPARATOR: char = ',';

/// A text without the whitespace at its two ends, as the standard library
/// removes it.
pub uninterp spec fn trimmed(text: Seq<char>) -> Seq<char>;

/// Calls `str::trim`. The contract names the result after the characters of
/// `text` and claims nothing else of it.
#[verifier::external_body]
fn trim(text: &str) -> (inner: &str)
    ensures
        inner@ == trimmed(text@),
{
    text.trim()
}

/// What stands before the first list separator of `header`; all of it where
/// it has none.
pub open spec fn first_entry(header: Seq<char>) -> Seq<char> {
    match header.index_of_first(LIST_SEPARATOR) {
        Some(i) => header.take(i),
        None => header,
    }
}

/// The sender's address as a forwarding header gives it: the first entry of
/// the list, without the whitespace around it.
pub fn forwarded_client(header: &str) -> (client: String)
    ensures
        client@ == trimmed(first_entry(header@)),
{
    let chars = chars_of(header);
    let entry = match first_index_of(&chars, LIST_SEPARATOR) {
        Some(i) => {
            proof {
                header@.index_of_first_ensures(LIST_SEPARATOR);
            }
            header.substring_char(0, i)
        },
        None => header,
    };
    trim(entry).to_owned()
}

} // verus!
