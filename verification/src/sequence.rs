//! The Fibonacci sequence as a mathematical object, and its image in
//! 128-bit unsigned arithmetic.

use vstd::arithmetic::div_mod::{
    lemma_add_mod_noop, lemma_mod_sub_multiples_vanish, lemma_small_mod,
};
use vstd::prelude::*;

verus! {

/// The term of the Fibonacci sequence at index `n`, counted from zero:
/// 0, 1, 1, 2, 3, 5, 8, ...
pub open spec fn fibonacci(n: nat) -> nat
    decreases n,
{
    if n < 2 {
        n
    } else {
        fibonacci((n - 1) as nat) + fibonacci((n - 2) as nat)
    }
}

/// The number of values that 128 bits can hold: two to the power 128.
pub open spec fn width() -> nat {
    0x1_0000_0000_0000_0000_0000_0000_0000_0000nat
}

/// The largest index whose term fits in 128 bits.
pub open spec fn last_exact_index() -> nat {
    186
}

/// What 128-bit arithmetic that silently wraps around holds for the term at
/// index `n`: the term modulo `width()`.
pub open spec fn wrapped_fibonacci(n: nat) -> nat {
    fibonacci(n) % width()
}

/// The sequence never decreases: a later index holds at least as large a
/// term.
pub proof fn lemma_fibonacci_monotonic(i: nat, j: nat)
    requires
        i <= j,
    ensures
        fibonacci(i) <= fibonacci(j),
    decreases j,
{
    if i < j {
        if j >= 2 {
            lemma_fibonacci_monotonic(i, (j - 1) as nat);
        }
    }
}

/// The addition formula: the term at `m + n + 1` is
/// `F(m + 1) * F(n + 1) + F(m) * F(n)`.
pub proof fn lemma_fibonacci_addition(m: nat, n: nat)
    ensures
        fibonacci(m + n + 1) == fibonacci(m + 1) * fibonacci(n + 1) + fibonacci(m) * fibonacci(n),
    decreases n,
{
    let p = fibonacci(m);
    let q = fibonacci(m + 1);
    if n == 0 {
        assert(q == q * 1 + p * 0) by (nonlinear_arith);
    } else if n == 1 {
        assert(fibonacci(2) == 1);
        assert(p + q == q * 1 + p * 1) by (nonlinear_arith);
    } else {
        let x = fibonacci((n - 2) as nat);
        let y = fibonacci((n - 1) as nat);
        lemma_fibonacci_addition(m, (n - 1) as nat);
        lemma_fibonacci_addition(m, (n - 2) as nat);
        assert(fibonacci(n) == x + y);
        assert(fibonacci(n + 1) == y + (x + y));
        assert(fibonacci(m + n) == q * (x + y) + p * y);
        assert(fibonacci((m + n - 1) as nat) == q * y + p * x);
        assert(fibonacci(m + n + 1) == fibonacci(m + n) + fibonacci((m + n - 1) as nat));
        assert((q * (x + y) + p * y) + (q * y + p * x) == q * (y + (x + y)) + p * (x + y))
            by (nonlinear_arith);
    }
}

/// Doubling: from the terms at `k` and `k + 1`, the terms at `2k` and
/// `2k + 1`.
proof fn lemma_fibonacci_doubling(k: nat, a: nat, b: nat)
    requires
        a == fibonacci(k),
        b == fibonacci(k + 1),
    ensures
        a <= 2 * b,
        fibonacci(2 * k) == a * (2 * b - a),
        fibonacci(2 * k + 1) == a * a + b * b,
        fibonacci(2 * k + 2) == a * (2 * b - a) + (a * a + b * b),
{
    lemma_fibonacci_monotonic(k, k + 1);
    lemma_fibonacci_addition(k, k);
    if k == 0 {
        assert(a * (2 * b - a) == 0) by (nonlinear_arith)
            requires
                a == 0,
        ;
    } else {
        let c = fibonacci((k - 1) as nat);
        assert(b == a + c);
        lemma_fibonacci_addition((k - 1) as nat, k);
        assert(fibonacci(2 * k) == a * b + c * a);
        assert(a * b + c * a == a * (2 * b - a)) by (nonlinear_arith)
            requires
                b == a + c,
        ;
    }
}

/// Where 128 bits end: the term at index 186 is the last that fits, and the
/// term at index 187 is the first that does not.
pub proof fn lemma_width_boundary()
    ensures
        fibonacci(186) == 332825110087067562321196029789634457848,
        fibonacci(187) == 538522340430300790495419781092981030533,
        fibonacci(186) < width() <= fibonacci(187),
{
    assert(fibonacci(1) == 1 && fibonacci(2) == 1) by {
        reveal_with_fuel(fibonacci, 3);
    }
    lemma_fibonacci_doubling(1, 1, 1);
    assert(fibonacci(2) == 1 && fibonacci(3) == 2);
    lemma_fibonacci_doubling(2, 1, 2);
    assert(fibonacci(5) == 5 && fibonacci(6) == 8);
    lemma_fibonacci_doubling(5, 5, 8);
    assert(fibonacci(11) == 89 && fibonacci(12) == 144);
    lemma_fibonacci_doubling(11, 89, 144);
    assert(fibonacci(23) == 28657 && fibonacci(24) == 46368);
    lemma_fibonacci_doubling(23, 28657, 46368);
    assert(fibonacci(46) == 1836311903 && fibonacci(47) == 2971215073);
    lemma_fibonacci_doubling(46, 1836311903, 2971215073);
    assert(fibonacci(93) == 12200160415121876738 && fibonacci(94) == 19740274219868223167);
    lemma_fibonacci_doubling(93, 12200160415121876738, 19740274219868223167);
    assert(fibonacci(186) == 332825110087067562321196029789634457848);
    assert(fibonacci(187) == 538522340430300790495419781092981030533);
}

/// A term fits in 128 bits exactly when its index is at most
/// `last_exact_index()`.
pub proof fn lemma_fits_in_width(n: nat)
    ensures
        fibonacci(n) < width() <==> n <= last_exact_index(),
{
    lemma_width_boundary();
    if n <= 186 {
        lemma_fibonacci_monotonic(n, 186);
    } else {
        lemma_fibonacci_monotonic(187, n);
    }
}

/// Up to `last_exact_index()` wrapping changes nothing: the wrapped term is
/// the term.
pub proof fn lemma_wrapped_exact(n: nat)
    requires
        n <= last_exact_index(),
    ensures
        wrapped_fibonacci(n) == fibonacci(n),
{
    lemma_fits_in_width(n);
    lemma_small_mod(fibonacci(n), width());
}

/// The first terms, and the two around the place where 128 bits end.
pub proof fn lemma_wrapped_values()
    ensures
        wrapped_fibonacci(0) == 0,
        wrapped_fibonacci(1) == 1,
        wrapped_fibonacci(2) == 1,
        wrapped_fibonacci(10) == 55,
        wrapped_fibonacci(20) == 6765,
        wrapped_fibonacci(186) == 332825110087067562321196029789634457848,
        wrapped_fibonacci(187) == 198239973509362327032045173661212819077,
{
    reveal_with_fuel(fibonacci, 3);
    lemma_fibonacci_doubling(2, 1, 2);
    lemma_fibonacci_doubling(5, 5, 8);
    lemma_fibonacci_doubling(10, 55, 89);
    lemma_width_boundary();
}

/// The recurrence, for every index from 2 on. What holds always is the
/// recurrence modulo `width()`; the plain sum holds exactly where it does not
/// pass `width()`, which is so up to `last_exact_index()`.
pub proof fn lemma_wrapped_recurrence(n: nat)
    requires
        n >= 2,
    ensures
        wrapped_fibonacci(n) == (wrapped_fibonacci((n - 1) as nat) + wrapped_fibonacci(
            (n - 2) as nat,
        )) % width(),
        wrapped_fibonacci(n) == wrapped_fibonacci((n - 1) as nat) + wrapped_fibonacci(
            (n - 2) as nat,
        ) <==> wrapped_fibonacci((n - 1) as nat) + wrapped_fibonacci((n - 2) as nat) < width(),
        n <= last_exact_index() ==> wrapped_fibonacci(n) == wrapped_fibonacci((n - 1) as nat)
            + wrapped_fibonacci((n - 2) as nat),
{
    let x = fibonacci((n - 1) as nat);
    let y = fibonacci((n - 2) as nat);
    lemma_add_mod_noop(x as int, y as int, width() as int);
    let sum = x % width() + y % width();
    if sum < width() {
        lemma_small_mod(sum, width());
    }
    if n <= last_exact_index() {
        lemma_wrapped_exact(n);
        lemma_wrapped_exact((n - 1) as nat);
        lemma_wrapped_exact((n - 2) as nat);
    }
}

/// One step never decreases the wrapped term, for every index from 1 on,
/// exactly where the sum that makes the next term does not pass `width()`;
/// that is so wherever the next index is at most `last_exact_index()`.
pub proof fn lemma_wrapped_step_monotonic(n: nat)
    requires
        n >= 1,
    ensures
        wrapped_fibonacci(n + 1) >= wrapped_fibonacci(n) <==> wrapped_fibonacci(n)
            + wrapped_fibonacci((n - 1) as nat) < width(),
        n + 1 <= last_exact_index() ==> wrapped_fibonacci(n + 1) >= wrapped_fibonacci(n),
{
    let x = wrapped_fibonacci(n);
    let y = wrapped_fibonacci((n - 1) as nat);
    lemma_wrapped_recurrence(n + 1);
    if x + y >= width() {
        lemma_small_mod((x + y - width()) as nat, width());
        assert((x + y) % width() == (x + y - width()) % (width() as int)) by {
            lemma_mod_sub_multiples_vanish((x + y) as int, width() as int);
        }
    }
}

/// Among the indices up to `last_exact_index()` a later index holds at
/// least as large a wrapped term.
pub proof fn lemma_wrapped_monotonic(i: nat, j: nat)
    requires
        i <= j <= last_exact_index(),
    ensures
        wrapped_fibonacci(i) <= wrapped_fibonacci(j),
{
    lemma_wrapped_exact(i);
    lemma_wrapped_exact(j);
    lemma_fibonacci_monotonic(i, j);
}

/// The wrapped term depends on the index alone: two results for one index
/// are one value.
pub proof fn lemma_wrapped_deterministic(m: nat, n: nat, first: u128, second: u128)
    requires
        m == n,
        first == wrapped_fibonacci(m),
        second == wrapped_fibonacci(n),
    ensures
        first == second,
{
}

} // verus!
