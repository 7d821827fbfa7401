//! Parts of a text between two byte offsets. A `str` can only be cut on
//! character boundaries; the tokens of the notation begin and end beside
//! ASCII bytes, where a boundary always lies.

use vstd::prelude::*;
use vstd::string::StringSliceAdditionalSpecFns;
use vstd::utf8::{
    encode_utf8_valid_utf8, is_char_boundary, is_char_boundary_iff_not_is_continuation_byte,
    is_char_boundary_start_end_of_seq, length_of_first_scalar, pop_first_scalar, valid_utf8,
    valid_utf8_split,
};

verus! {

/// In well-formed UTF-8 a character boundary lies behind every ASCII byte.
pub proof fn lemma_boundary_behind_ascii(bytes: Seq<u8>, i: int)
    requires
        valid_utf8(bytes),
        0 <= i < bytes.len(),
        bytes[i] < 128,
    ensures
        is_char_boundary(bytes, i + 1),
    decreases bytes.len(),
{
    let n = length_of_first_scalar(bytes);
    reveal_with_fuel(is_char_boundary, 2);
    if i >= n {
        lemma_boundary_behind_ascii(pop_first_scalar(bytes), i - n);
    }
}

/// In well-formed UTF-8 a character boundary lies before every ASCII byte.
pub proof fn lemma_boundary_before_ascii(bytes: Seq<u8>, i: int)
    requires
        valid_utf8(bytes),
        0 <= i < bytes.len(),
        bytes[i] < 128,
    ensures
        is_char_boundary(bytes, i),
{
    is_char_boundary_iff_not_is_continuation_byte(bytes, i);
}

/// The part of `input` from the byte offset `start` up to the byte offset
/// `end`.
pub fn substr<'a>(input: &'a str, start: usize, end: usize) -> (r: &'a str)
    requires
        start <= end <= input.spec_bytes().len(),
        is_char_boundary(input.spec_bytes(), start as int),
        is_char_boundary(input.spec_bytes(), end as int),
    ensures
        r.spec_bytes() == input.spec_bytes().subrange(start as int, end as int),
{
    let ghost bytes = input.spec_bytes();
    proof {
        encode_utf8_valid_utf8(input@);
    }
    let (_, tail) = input.split_at(start);
    proof {
        valid_utf8_split(bytes, start as int);
        let rest = tail.spec_bytes();
        if end == bytes.len() {
            is_char_boundary_start_end_of_seq(rest);
        } else if end > start {
            is_char_boundary_iff_not_is_continuation_byte(bytes, end as int);
            assert(rest[end - start] == bytes[end as int]);
            is_char_boundary_iff_not_is_continuation_byte(rest, end - start);
        }
    }
    let (token, _) = tail.split_at(end - start);
    assert(token.spec_bytes() =~= bytes.subrange(start as int, end as int));
    token
}

} // verus!
