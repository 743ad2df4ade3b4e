//! The link extractor: scans article body text for `[[...]]` wiki links and
//! yields the title hash of every target, in order of appearance.
//!
//! A candidate between `[[` and `]]` is dropped when it contains `:` (a
//! namespaced link such as a file, category or interlanguage reference).
//! A surviving candidate is truncated at the first `#` (section anchor) or
//! `|` (display alias), whichever comes first, and the remaining prefix is
//! hashed.  A trailing `[[` with no matching `]]` ends the scan.
//!
//! All markers are single ASCII bytes, so the scan works on the UTF-8 bytes
//! of the text; multi-byte scalars can never collide with a marker byte.

use vstd::prelude::*;

verus! {

use super::hashing::spec_title_hash;
use super::hashing::hash_title_bytes;
use vstd::slice::slice_to_vec;

/// Byte value of `[`.
pub open spec fn open_bracket() -> u8 {
    91
}

/// Byte value of `]`.
pub open spec fn close_bracket() -> u8 {
    93
}

/// Byte value of `:`.
pub open spec fn colon() -> u8 {
    58
}

/// Byte value of `#`.
pub open spec fn hash_mark() -> u8 {
    35
}

/// Byte value of `|`.
pub open spec fn pipe_mark() -> u8 {
    124
}

/// Position of the first occurrence of the two-byte marker `cc` at or after
/// `from`, if any.
pub open spec fn find_double(b: Seq<u8>, c: u8, from: int) -> Option<int>
    decreases b.len() - from,
{
    if from < 0 || from + 2 > b.len() {
        None
    } else if b[from] == c && b[from + 1] == c {
        Some(from)
    } else {
        find_double(b, c, from + 1)
    }
}

/// Position of the first occurrence of byte `c` at or after `from`, if any.
pub open spec fn find_byte(b: Seq<u8>, c: u8, from: int) -> Option<int>
    decreases b.len() - from,
{
    if from < 0 || from >= b.len() {
        None
    } else if b[from] == c {
        Some(from)
    } else {
        find_byte(b, c, from + 1)
    }
}

pub proof fn lemma_find_double_bounds(b: Seq<u8>, c: u8, from: int)
    ensures
        find_double(b, c, from) matches Some(i) ==> from <= i && i + 2 <= b.len() && b[i] == c
            && b[i + 1] == c,
    decreases b.len() - from,
{
    if from < 0 || from + 2 > b.len() {
    } else if b[from] == c && b[from + 1] == c {
    } else {
        lemma_find_double_bounds(b, c, from + 1);
    }
}

pub proof fn lemma_find_byte_bounds(b: Seq<u8>, c: u8, from: int)
    ensures
        find_byte(b, c, from) matches Some(i) ==> from <= i && i < b.len() && b[i] == c,
    decreases b.len() - from,
{
    if from < 0 || from >= b.len() {
    } else if b[from] == c {
    } else {
        lemma_find_byte_bounds(b, c, from + 1);
    }
}

/// Where a candidate link target is cut: at the first `#` or the first `|`,
/// whichever occurs first, or at its end when neither occurs.
pub open spec fn link_cut(link: Seq<u8>) -> int {
    let h = find_byte(link, hash_mark(), 0);
    let p = find_byte(link, pipe_mark(), 0);
    match (h, p) {
        (Option::None, Option::None) => link.len() as int,
        (Option::Some(i), Option::None) => i,
        (Option::None, Option::Some(j)) => j,
        (Option::Some(i), Option::Some(j)) => if i <= j {
            i
        } else {
            j
        },
    }
}

/// The link hashes extracted from `b`, scanning from position `start`.
pub open spec fn spec_links_from(b: Seq<u8>, start: int) -> Seq<u64>
    decreases b.len() - start,
    when start >= 0
    via links_from_decreases
{
    match find_double(b, open_bracket(), start) {
        Option::None => Seq::empty(),
        Option::Some(i) => {
            match find_double(b, close_bracket(), i + 2) {
                Option::None => Seq::empty(),
                Option::Some(e) => {
                    let link = b.subrange(i + 2, e);
                    let rest = spec_links_from(b, e + 2);
                    if find_byte(link, colon(), 0) is Some {
                        rest
                    } else {
                        seq![spec_title_hash(link.take(link_cut(link)))] + rest
                    }
                },
            }
        },
    }
}

#[via_fn]
proof fn links_from_decreases(b: Seq<u8>, start: int) {
    lemma_find_double_bounds(b, open_bracket(), start);
    if let Option::Some(i) = find_double(b, open_bracket(), start) {
        lemma_find_double_bounds(b, close_bracket(), i + 2);
    }
}

/// The link hashes extracted from the whole of `b`.
pub open spec fn spec_links(b: Seq<u8>) -> Seq<u64> {
    spec_links_from(b, 0)
}

/// First occurrence of the two-byte marker `cc` at or after `from`.
fn find_double_exec(b: &[u8], c: u8, from: usize) -> (r: Option<usize>)
    ensures
        match r {
            Option::Some(i) => find_double(b@, c, from as int) == Option::Some(i as int),
            Option::None => find_double(b@, c, from as int) is None,
        },
{
    let mut i = from;
    loop
        invariant
            from <= i,
            find_double(b@, c, from as int) == find_double(b@, c, i as int),
        decreases b@.len() - i,
    {
        if i >= b.len() {
            assert(find_double(b@, c, i as int) is None);
            return None;
        }
        if i + 1 >= b.len() {
            assert(find_double(b@, c, i as int) is None);
            return None;
        }
        if b[i] == c && b[i + 1] == c {
            assert(find_double(b@, c, i as int) == Option::Some(i as int));
            return Some(i);
        }
        assert(find_double(b@, c, i as int) == find_double(b@, c, i as int + 1));
        i = i + 1;
    }
}

/// First occurrence of byte `c` at or after `from`.
fn find_byte_exec(b: &[u8], c: u8, from: usize) -> (r: Option<usize>)
    ensures
        match r {
            Option::Some(i) => find_byte(b@, c, from as int) == Option::Some(i as int),
            Option::None => find_byte(b@, c, from as int) is None,
        },
{
    let mut i = from;
    loop
        invariant
            from <= i,
            find_byte(b@, c, from as int) == find_byte(b@, c, i as int),
        decreases b@.len() - i,
    {
        if i >= b.len() {
            assert(find_byte(b@, c, i as int) is None);
            return None;
        }
        if b[i] == c {
            assert(find_byte(b@, c, i as int) == Option::Some(i as int));
            return Some(i);
        }
        assert(find_byte(b@, c, i as int) == find_byte(b@, c, i as int + 1));
        i = i + 1;
    }
}

/// Where an extracted candidate is cut (see [`link_cut`]).
fn link_cut_exec(link: &Vec<u8>) -> (c: usize)
    ensures
        c as int == link_cut(link@),
        c <= link@.len(),
{
    proof {
        lemma_find_byte_bounds(link@, hash_mark(), 0);
        lemma_find_byte_bounds(link@, pipe_mark(), 0);
    }
    let h = find_byte_exec(link.as_slice(), 35, 0);
    let p = find_byte_exec(link.as_slice(), 124, 0);
    match (h, p) {
        (Option::None, Option::None) => link.len(),
        (Option::Some(i), Option::None) => i,
        (Option::None, Option::Some(j)) => j,
        (Option::Some(i), Option::Some(j)) => if i <= j {
            i
        } else {
            j
        },
    }
}

/// Extract the ordered link hashes from the UTF-8 bytes of an article body.
pub fn extract_links(b: &[u8]) -> (r: Vec<u64>)
    ensures
        r@ == spec_links(b@),
{
    let n = b.len();
    let mut links: Vec<u64> = Vec::new();
    let mut start: usize = 0;
    loop
        invariant
            n == b@.len(),
            links@ + spec_links_from(b@, start as int) =~= spec_links(b@),
        decreases b@.len() - start,
    {
        proof {
            lemma_find_double_bounds(b@, open_bracket(), start as int);
        }
        match find_double_exec(b, 91, start) {
            Option::None => {
                assert(links@ + spec_links_from(b@, start as int) =~= links@);
                return links;
            },
            Option::Some(i) => {
                let sp = i + 2;
                proof {
                    lemma_find_double_bounds(b@, close_bracket(), sp as int);
                }
                match find_double_exec(b, 93, sp) {
                    Option::None => {
                        assert(links@ + spec_links_from(b@, start as int) =~= links@);
                        return links;
                    },
                    Option::Some(e) => {
                        let mut link = slice_to_vec(&b[sp..e]);
                        assert(link@ =~= b@.subrange(sp as int, e as int));
                        if find_byte_exec(link.as_slice(), 58, 0).is_none() {
                            let cut = link_cut_exec(&link);
                            link.truncate(cut);
                            assert(link@ =~= b@.subrange(sp as int, e as int).take(link_cut(
                                b@.subrange(sp as int, e as int),
                            )));
                            let h = hash_title_bytes(link.as_slice());
                            links.push(h);
                        }
                        start = e + 2;
                    },
                }
            },
        }
    }
}

} // verus!
