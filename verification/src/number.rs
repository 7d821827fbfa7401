//! Decimal digits as a machine number.

use crate::grammar::{all_digits, decimal_value, is_digit};
use vstd::prelude::*;

verus! {

/// The number that `digits` denotes, where they are decimal digits and at
/// least one.
pub open spec fn decimal_number(digits: Seq<u8>) -> Option<nat> {
    if digits.len() > 0 && all_digits(digits) {
        Some(decimal_value(digits))
    } else {
        None
    }
}

/// The number that `digits` denotes, where a `usize` holds it.
pub open spec fn decimal_usize(digits: Seq<u8>) -> Option<usize> {
    match decimal_number(digits) {
        Some(v) => if v <= usize::MAX {
            Some(v as usize)
        } else {
            None
        },
        None => None,
    }
}

/// A prefix of a run of digits denotes no more than the whole run.
pub proof fn lemma_decimal_prefix_le(digits: Seq<u8>, i: int)
    requires
        all_digits(digits),
        0 <= i <= digits.len(),
    ensures
        decimal_value(digits.subrange(0, i)) <= decimal_value(digits),
    decreases digits.len(),
{
    if i == digits.len() {
        assert(digits.subrange(0, i) =~= digits);
    } else {
        let front = digits.drop_last();
        assert(is_digit(digits[digits.len() - 1]));
        assert(front.subrange(0, i) =~= digits.subrange(0, i));
        assert forall|j: int| 0 <= j < front.len() implies is_digit(#[trigger] front[j]) by {
            assert(front[j] == digits[j]);
        }
        lemma_decimal_prefix_le(front, i);
    }
}

/// Reads `digits` as a decimal number. The result is `None` where they are
/// no digits, or denote more than a `usize` holds.
pub fn parse_decimal(digits: &[u8]) -> (r: Option<usize>)
    ensures
        r == decimal_usize(digits@),
{
    if digits.len() == 0 {
        return None;
    }
    let mut acc: usize = 0;
    let mut i: usize = 0;
    while i < digits.len()
        invariant
            i <= digits@.len(),
            forall|j: int| 0 <= j < i ==> is_digit(#[trigger] digits@[j]),
            acc == decimal_value(digits@.subrange(0, i as int)),
        decreases digits@.len() - i,
    {
        let b: u8 = digits[i];
        if b < 48 || b > 57 {
            assert(!is_digit(digits@[i as int]));
            return None;
        }
        let d: usize = (b - 48) as usize;
        proof {
            let upto = digits@.subrange(0, i + 1);
            assert(upto.drop_last() =~= digits@.subrange(0, i as int));
            assert(upto.last() == b);
            assert(decimal_value(upto) == acc * 10 + d);
            if all_digits(digits@) {
                lemma_decimal_prefix_le(digits@, i + 1);
            }
        }
        let scaled = match acc.checked_mul(10) {
            Some(m) => m,
            None => {
                return None;
            },
        };
        acc = match scaled.checked_add(d) {
            Some(s) => s,
            None => {
                return None;
            },
        };
        i += 1;
    }
    assert(digits@.subrange(0, i as int) =~= digits@);
    Some(acc)
}

} // verus!
