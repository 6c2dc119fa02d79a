//! Checksums of installed `SKILL.md` files: `sha256:` and the lowercase hex
//! of the SHA-256 digest.

use vstd::prelude::*;
use sha2::{Digest, Sha256};
use crate::text::{push_char, push_str};

verus! {

/// The SHA-256 digest of `bytes`, as the `sha2` crate computes it.
pub uninterp spec fn sha256_of(bytes: Seq<u8>) -> Seq<u8>;

/// `sha2::Sha256` (`new`, `update`, `finalize`): the digest of `bytes`,
/// whose output type holds 32 bytes.
#[verifier::external_body]
fn sha256_digest(bytes: &[u8]) -> (d: Vec<u8>)
    ensures
        d@ == sha256_of(bytes@),
        d@.len() == 32,
{
    let mut h = Sha256::new();
    h.update(bytes);
    h.finalize().to_vec()
}

/// The lowercase hexadecimal digit of `n < 16`.
pub open spec fn hex_digit(n: int) -> char {
    if n < 10 {
        (('0' as u32) + n) as char
    } else {
        (('a' as u32) + (n - 10)) as char
    }
}

/// Two lowercase hex digits per byte, high nibble first.
pub open spec fn hex_seq(bytes: Seq<u8>) -> Seq<char>
    decreases bytes.len(),
{
    if bytes.len() == 0 {
        Seq::empty()
    } else {
        hex_seq(bytes.drop_last()).push(hex_digit((bytes.last() / 16) as int)).push(
            hex_digit((bytes.last() % 16) as int),
        )
    }
}

/// The hex digit of a nibble.
fn hex_char(n: u8) -> (c: char)
    requires
        n < 16,
    ensures
        c == hex_digit(n as int),
{
    match n {
        0 => '0',
        1 => '1',
        2 => '2',
        3 => '3',
        4 => '4',
        5 => '5',
        6 => '6',
        7 => '7',
        8 => '8',
        9 => '9',
        10 => 'a',
        11 => 'b',
        12 => 'c',
        13 => 'd',
        14 => 'e',
        _ => 'f',
    }
}

/// The checksum text of a digest: `sha256:` and its lowercase hex.
pub fn checksum_text(digest: &[u8]) -> (r: String)
    ensures
        r@ == "sha256:"@ + hex_seq(digest@),
{
    let mut out = "sha256:".to_owned();
    let ghost prefix = out@;
    let mut i: usize = 0;
    while i < digest.len()
        invariant
            0 <= i <= digest@.len(),
            prefix == "sha256:"@,
            out@ == prefix + hex_seq(digest@.take(i as int)),
        decreases digest@.len() - i,
    {
        let b = digest[i];
        proof {
            assert(digest@.take(i + 1).drop_last() =~= digest@.take(i as int));
            assert(digest@.take(i + 1).last() == b);
        }
        push_char(&mut out, hex_char(b / 16));
        push_char(&mut out, hex_char(b % 16));
        proof {
            assert(out@ =~= prefix + hex_seq(digest@.take(i + 1)));
        }
        i = i + 1;
    }
    proof {
        assert(digest@.take(i as int) =~= digest@);
    }
    out
}

/// The checksum of a file's bytes.
pub fn sha256_hex(bytes: &[u8]) -> (r: String)
    ensures
        r@ == "sha256:"@ + hex_seq(sha256_of(bytes@)),
{
    let d = sha256_digest(bytes);
    checksum_text(d.as_slice())
}

/// Whether a file's bytes have the recorded checksum.
pub fn checksum_matches(bytes: &[u8], expected: &str) -> (b: bool)
    ensures
        b == ("sha256:"@ + hex_seq(sha256_of(bytes@)) == expected@),
{
    let actual = sha256_hex(bytes);
    crate::text::str_eq(actual.as_str(), expected)
}

/// The hex text of bytes has two characters per byte, each a lowercase
/// hex digit.
pub proof fn law_hex_shape(bytes: Seq<u8>)
    ensures
        hex_seq(bytes).len() == 2 * bytes.len(),
        forall|i: int|
            0 <= i < hex_seq(bytes).len() ==> ('0' <= #[trigger] hex_seq(bytes)[i] <= '9') || ('a'
                <= hex_seq(bytes)[i] <= 'f'),
    decreases bytes.len(),
{
    if bytes.len() > 0 {
        law_hex_shape(bytes.drop_last());
        let h = hex_seq(bytes.drop_last());
        let hi = (bytes.last() / 16) as int;
        let lo = (bytes.last() % 16) as int;
        assert(0 <= hi < 16 && 0 <= lo < 16);
        assert(('0' <= hex_digit(hi) <= '9') || ('a' <= hex_digit(hi) <= 'f'));
        assert(('0' <= hex_digit(lo) <= '9') || ('a' <= hex_digit(lo) <= 'f'));
        assert forall|i: int| 0 <= i < hex_seq(bytes).len() implies ('0' <= #[trigger] hex_seq(bytes)[i] <= '9') || ('a' <= hex_seq(bytes)[i] <= 'f') by {
            if i < h.len() {
                assert(hex_seq(bytes)[i] == h[i]);
            }
        }
    }
}

} // verus!
