//! Circular-index arithmetic: normalization of a possibly signed index into
//! `[0, size)`, and wraparound addition and subtraction on unsigned indices.
//!
//! All results are stated against mathematical modulo (`%` on `int`, which is
//! non-negative for a positive divisor), so `wrap_sub(1, 6, 10)` is `5`.

use vstd::arithmetic::div_mod::{
    lemma_fundamental_div_mod, lemma_fundamental_div_mod_converse, lemma_mod_multiples_basic,
};
use vstd::prelude::*;

verus! {

/// Mathematical modulo of a negated positive number: for `a > 0` and `s > 0`,
/// `(-a) % s` is `0` when `s` divides `a` and `s - a % s` otherwise.
proof fn lemma_neg_mod(a: int, s: int)
    requires
        s > 0,
        a > 0,
    ensures
        (-a) % s == if a % s == 0 {
            0int
        } else {
            s - a % s
        },
{
    let q = a / s;
    let m = a % s;
    lemma_fundamental_div_mod(a, s);
    if m == 0 {
        assert(-a == (-q) * s) by (nonlinear_arith)
            requires
                a == q * s + m,
                m == 0,
        ;
        lemma_mod_multiples_basic(-q, s);
    } else {
        assert(-a == (-q - 1) * s + (s - m)) by (nonlinear_arith)
            requires
                a == q * s + m,
        ;
        lemma_fundamental_div_mod_converse(-a, s, -q - 1, s - m);
    }
}

/// Normalize a signed index into `[0, size)`.
///
/// The result always agrees with mathematical modulo, so a negative index
/// wraps back from the end: `wrap_index(-5, 10)` is `5`.
pub fn wrap_index(index: isize, size: isize) -> (r: usize)
    requires
        size > 0,
        index > isize::MIN,
    ensures
        r as int == (index as int) % (size as int),
        r < size,
{
    if index >= 0 {
        (index as usize) % (size as usize)
    } else {
        let a: usize = (-index) as usize;
        let m: usize = a % (size as usize);
        proof {
            lemma_neg_mod(a as int, size as int);
        }
        if m == 0 {
            0
        } else {
            (size as usize) - m
        }
    }
}

/// Add `add` to `index`, wrapping around a buffer of `size` slots.
///
/// The sum is formed in a domain wide enough not to overflow, then
/// normalized, so the result is `(index + add) % size`.
pub fn wrap_add(index: usize, add: usize, size: usize) -> (r: usize)
    requires
        0 < size <= isize::MAX as usize,
        index + add <= isize::MAX as usize,
    ensures
        r as int == (index + add) % (size as int),
        r < size,
{
    wrap_index((index + add) as isize, size as isize)
}

/// Subtract `sub` from `index`, wrapping around a buffer of `size` slots.
///
/// The difference is formed in a signed domain wide enough not to underflow,
/// then normalized, so the result is the non-negative `(index - sub) % size`.
pub fn wrap_sub(index: usize, sub: usize, size: usize) -> (r: usize)
    requires
        0 < size <= isize::MAX as usize,
        index <= isize::MAX as usize,
        sub <= isize::MAX as usize,
    ensures
        r as int == (index - sub) % (size as int),
        r < size,
{
    wrap_index((index as isize) - (sub as isize), size as isize)
}

} // verus!
