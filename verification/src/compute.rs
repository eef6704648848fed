//! The executable functions: the term at an index, computed by the
//! two-accumulator loop.

use crate::sequence::{
    fibonacci, last_exact_index, lemma_fibonacci_monotonic, lemma_fits_in_width,
    lemma_wrapped_exact, width, wrapped_fibonacci,
};
use vstd::arithmetic::div_mod::lemma_add_mod_noop;
use vstd::prelude::*;

verus! {

/// The term at index `n`, in 128-bit arithmetic that wraps around silently.
///
/// Runs the loop exactly `n` times. Up to index 186 the result is the term
/// itself; from 187 on it is the term modulo two to the power 128.
pub fn rust_fibonacci(n: u32) -> (term: u128)
    ensures
        term == wrapped_fibonacci(n as nat),
        n <= last_exact_index() ==> term == fibonacci(n as nat),
{
    proof {
        if n <= last_exact_index() {
            lemma_wrapped_exact(n as nat);
        }
    }
    let mut a: u128 = 0;
    let mut b: u128 = 1;
    let mut i: u32 = 0;
    while i < n
        invariant
            i <= n,
            a == wrapped_fibonacci(i as nat),
            b == wrapped_fibonacci((i + 1) as nat),
        decreases n - i,
    {
        let temp: u128 = a;
        a = b;
        b = temp.wrapping_add(b);
        proof {
            lemma_add_mod_noop(
                fibonacci(i as nat) as int,
                fibonacci((i + 1) as nat) as int,
                width() as int,
            );
        }
        i = i + 1;
    }
    a
}

/// The term asked for does not fit in 128 bits.
#[derive(Clone, Copy, Debug, PartialEq, Eq)]
pub struct OverflowError;

/// The term at index `n` where it fits in 128 bits, and `OverflowError`
/// where it does not: never a wrapped value.
///
/// The terms up to index 186 fit; the loop stops at the first sum that
/// passes 128 bits, so no index costs more than 186 additions.
pub fn checked_fibonacci(n: u32) -> (result: Result<u128, OverflowError>)
    ensures
        match result {
            Ok(term) => n <= last_exact_index() && term == fibonacci(n as nat),
            Err(_) => n > last_exact_index() && fibonacci(n as nat) >= width(),
        },
{
    proof {
        lemma_fits_in_width(n as nat);
    }
    if n == 0 {
        return Ok(0);
    }
    let mut a: u128 = 0;
    let mut b: u128 = 1;
    let mut i: u32 = 1;
    while i < n
        invariant
            1 <= i <= n,
            a == fibonacci((i - 1) as nat),
            b == fibonacci(i as nat),
            fibonacci(n as nat) < width() <==> n <= last_exact_index(),
        decreases n - i,
    {
        match a.checked_add(b) {
            Some(next) => {
                a = b;
                b = next;
            },
            None => {
                proof {
                    lemma_fibonacci_monotonic((i + 1) as nat, n as nat);
                }
                return Err(OverflowError);
            },
        }
        i = i + 1;
    }
    Ok(b)
}

} // verus!
