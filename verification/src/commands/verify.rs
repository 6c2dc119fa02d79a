//! `skillctl verify`: checking installed files against their recorded
//! checksums.

use vstd::prelude::*;
use crate::digest::{hex_seq, sha256_hex, sha256_of};
use crate::text::str_eq;

verus! {

/// The arguments of `skillctl verify`.
pub struct Args {
    /// One skill, by full id or short name; every installed skill without.
    pub id: Option<String>,
}

/// The check of one installed skill.
#[derive(Debug)]
pub struct VerifyItem {
    pub id: String,
    pub expected: String,
    pub actual: String,
    pub ok: bool,
}

/// Checks the installed `SKILL.md` bytes of `id` against the recorded
/// checksum.
pub fn verify_item(id: &str, expected: &str, raw: &[u8]) -> (v: VerifyItem)
    ensures
        v.id@ == id@,
        v.expected@ == expected@,
        v.actual@ == "sha256:"@ + hex_seq(sha256_of(raw@)),
        v.ok == (v.actual@ == expected@),
{
    let actual = sha256_hex(raw);
    let ok = str_eq(actual.as_str(), expected);
    VerifyItem { id: id.to_owned(), expected: expected.to_owned(), actual, ok }
}

/// Every check passed.
pub fn all_ok(items: &Vec<VerifyItem>) -> (b: bool)
    ensures
        b == forall|k: int| 0 <= k < items@.len() ==> (#[trigger] items@[k]).ok,
{
    let mut i: usize = 0;
    while i < items.len()
        invariant
            0 <= i <= items@.len(),
            forall|k: int| 0 <= k < i ==> (#[trigger] items@[k]).ok,
        decreases items@.len() - i,
    {
        if !items[i].ok {
            return false;
        }
        i = i + 1;
    }
    true
}

} // verus!
