//! The title hasher: a deterministic 64-bit identifier for an article title.
//!
//! Titles are case-sensitive except for their first letter, which the source
//! system always capitalizes.  The hasher therefore uppercases the first
//! Unicode scalar of the title and hashes the uppercased prefix followed by
//! the unchanged remainder, so that two spellings of a title that differ only
//! in the case of the first letter receive the same identifier.

use vstd::prelude::*;

verus! {

use std::hash::{DefaultHasher, Hasher};
use vstd::std_specs::hash::DefaultHasherAdditionalSpecFns;
use vstd::slice::slice_to_vec;
use vstd::string::StringSliceAdditionalSpecFns;

/// The UTF-8 bytes that `str::to_uppercase` produces for the string decoded
/// (lossily) from the given UTF-8 bytes.
pub uninterp spec fn upper_utf8_of(b: Seq<u8>) -> Seq<u8>;

/// Relies on `String::from_utf8_lossy` (to decode the argument) and
/// `str::to_uppercase` (the Unicode uppercasing itself): the result depends
/// on the argument bytes alone, and empty input uppercases to empty output.
#[verifier::external_body]
fn uppercase_bytes(b: &Vec<u8>) -> (r: Vec<u8>)
    ensures
        r@ == upper_utf8_of(b@),
        r@.len() == 0 <== b@.len() == 0,
{
    String::from_utf8_lossy(b).to_uppercase().into_bytes()
}

/// Byte width of the first UTF-8 scalar of `b`, read off its leading byte and
/// clipped to the length of `b`.  A byte that cannot lead a scalar counts as
/// width 1; on the valid UTF-8 input that titles are made of this case never
/// arises.
pub open spec fn first_scalar_width(b: Seq<u8>) -> int {
    if b.len() == 0 {
        0
    } else {
        let w: int = if b[0] < 0x80 {
            1
        } else if 0xc0 <= b[0] && b[0] <= 0xdf {
            2
        } else if 0xe0 <= b[0] && b[0] <= 0xef {
            3
        } else if 0xf0 <= b[0] && b[0] <= 0xf7 {
            4
        } else {
            1
        };
        if w > b.len() {
            b.len() as int
        } else {
            w
        }
    }
}

/// The title hash of the UTF-8 bytes `b`: the empty title is hashed as it
/// stands, any other title as the pair (uppercased first scalar, unchanged
/// remainder).
pub open spec fn spec_title_hash(b: Seq<u8>) -> u64 {
    if b.len() == 0 {
        DefaultHasher::spec_finish(seq![b])
    } else {
        let w = first_scalar_width(b);
        DefaultHasher::spec_finish(seq![upper_utf8_of(b.take(w)), b.skip(w)])
    }
}

/// Hash a title given as UTF-8 bytes.
pub fn hash_title_bytes(b: &[u8]) -> (h: u64)
    ensures
        h == spec_title_hash(b@),
{
    let mut hasher = DefaultHasher::new();
    if b.len() == 0 {
        hasher.write(b);
        assert(hasher@ =~= seq![b@]);
    } else {
        let lead = b[0];
        let w0: usize = if lead < 0x80 {
            1
        } else if 0xc0 <= lead && lead <= 0xdf {
            2
        } else if 0xe0 <= lead && lead <= 0xef {
            3
        } else if 0xf0 <= lead && lead <= 0xf7 {
            4
        } else {
            1
        };
        let w = if w0 > b.len() {
            b.len()
        } else {
            w0
        };
        assert(w == first_scalar_width(b@));
        let first = slice_to_vec(&b[0..w]);
        assert(first@ =~= b@.take(w as int));
        let upper = uppercase_bytes(&first);
        hasher.write(upper.as_slice());
        let rest = &b[w..b.len()];
        assert(rest@ =~= b@.skip(w as int));
        hasher.write(rest);
        assert(hasher@ =~= seq![upper_utf8_of(b@.take(w as int)), b@.skip(w as int)]);
    }
    hasher.finish()
}

} // verus!
