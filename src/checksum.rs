//! The ISBN-13 check digit: a weighted sum of twelve digits, modulo ten.
use vstd::prelude::*;
use vstd::arithmetic::div_mod::lemma_add_mod_noop_right;

verus! {

/// Weight of the digit at `i`: 1 at even positions, 3 at odd ones.
pub open spec fn weight(i: int) -> int {
    if i % 2 == 0 {
        1
    } else {
        3
    }
}

/// The sum of the digits, each times the weight of its position.
pub open spec fn weighted_sum(d: Seq<u8>) -> int
    decreases d.len(),
{
    if d.len() == 0 {
        0
    } else {
        weighted_sum(d.drop_last()) + weight(d.len() - 1) * d.last()
    }
}

/// The digit that brings the weighted sum up to a multiple of ten.
pub open spec fn check_digit_of(d: Seq<u8>) -> int {
    (10 - weighted_sum(d) % 10) % 10
}

/// Every element is a decimal digit.
pub open spec fn all_decimal(d: Seq<u8>) -> bool {
    forall|i: int| 0 <= i < d.len() ==> #[trigger] d[i] <= 9
}

proof fn lemma_running_sum_step(d: Seq<u8>, i: int)
    requires
        0 <= i < d.len(),
    ensures
        weighted_sum(d.take(i + 1)) == weighted_sum(d.take(i)) + weight(i) * d[i],
{
    assert(d.take(i + 1).drop_last() =~= d.take(i));
}

/// Computes the check digit of twelve decimal digits, keeping only the
/// running sum modulo ten.
pub fn check_digit(digits: &[u8]) -> (r: u8)
    requires
        digits@.len() == 12,
        all_decimal(digits@),
    ensures
        r as int == check_digit_of(digits@),
        r <= 9,
{
    let mut acc: u8 = 0;
    let mut i: usize = 0;
    while i < digits.len()
        invariant
            i <= digits@.len(),
            digits@.len() == 12,
            all_decimal(digits@),
            acc < 10,
            acc as int == weighted_sum(digits@.take(i as int)) % 10,
        decreases digits@.len() - i,
    {
        let d: u8 = digits[i];
        let w: u8 = if i % 2 == 0 { 1 } else { 3 };
        proof {
            lemma_running_sum_step(digits@, i as int);
            lemma_add_mod_noop_right(w * d, weighted_sum(digits@.take(i as int)), 10);
        }
        acc = (acc + w * d) % 10;
        i = i + 1;
    }
    assert(digits@.take(12) =~= digits@);
    (10 - acc) % 10
}

} // verus!
