//! Helper functions which handle some of the arithmetic that the evaluator
//! supports: the factorial, exact and reduced modulo 2^64.

use vstd::prelude::*;

verus! {

use vstd::arithmetic::div_mod::lemma_mul_mod_noop_right;
use vstd::arithmetic::div_mod::lemma_small_mod;

/// The factorial of `n`, with `fact(0) == 1`.
pub open spec fn fact(n: nat) -> nat
    decreases n,
{
    if n == 0 {
        1
    } else {
        n * fact((n - 1) as nat)
    }
}

/// The factorial of `n` reduced modulo 2^64: the value that the product
/// `1 * 2 * ... * n` takes when each step is a wrapping unsigned 64-bit
/// multiplication.
pub open spec fn wfact(n: nat) -> nat
    decreases n,
{
    if n == 0 {
        1
    } else {
        (n * wfact((n - 1) as nat)) % 0x1_0000_0000_0000_0000
    }
}

/// The factorial is monotone.
pub proof fn lemma_fact_le(m: nat, n: nat)
    requires
        m <= n,
    ensures
        fact(m) <= fact(n),
    decreases n,
{
    if m < n {
        lemma_fact_le(m, (n - 1) as nat);
        assert(n * fact((n - 1) as nat) >= 1 * fact((n - 1) as nat)) by (nonlinear_arith)
            requires
                n >= 1,
        ;
    }
}

/// The reduced factorial is the exact factorial reduced modulo 2^64.
pub proof fn lemma_wfact_is_fact_mod(n: nat)
    ensures
        wfact(n) == fact(n) % 0x1_0000_0000_0000_0000,
    decreases n,
{
    if n > 0 {
        lemma_wfact_is_fact_mod((n - 1) as nat);
        lemma_mul_mod_noop_right(n as int, fact((n - 1) as nat) as int, 0x1_0000_0000_0000_0000);
    }
}

/// Up to `20!` the reduced factorial still is the exact factorial, since
/// `20!` is the largest factorial that fits in an unsigned 64-bit value.
pub proof fn lemma_wfact_small(n: nat)
    requires
        n <= 20,
    ensures
        wfact(n) == fact(n),
        fact(n) <= 2432902008176640000,
{
    lemma_wfact_is_fact_mod(n);
    lemma_fact_le(n, 20);
    assert(fact(20) == 2432902008176640000) by {
        reveal_with_fuel(fact, 21);
    }
    lemma_small_mod(fact(n), 0x1_0000_0000_0000_0000);
}

/// Once the reduced factorial reaches zero it stays at zero.
pub proof fn lemma_wfact_zero_absorbs(k: nat, n: nat)
    requires
        wfact(k) == 0,
        k <= n,
    ensures
        wfact(n) == 0,
    decreases n,
{
    if n > k {
        lemma_wfact_zero_absorbs(k, (n - 1) as nat);
        assert(n * wfact((n - 1) as nat) == 0) by (nonlinear_arith)
            requires
                wfact((n - 1) as nat) == 0,
        ;
    }
}

/// Calculate the factorial of `n` exactly.
///
/// `20!` is the largest factorial an unsigned 64-bit value can hold, so
/// larger arguments are excluded; [`wfactorial`] is the total, wrapping
/// variant the evaluator uses.
pub fn ufactorial(n: u64) -> (r: u64)
    requires
        n <= 20,
    ensures
        r == fact(n as nat),
    decreases n,
{
    if n == 0 {
        return 1;
    }
    let rest = ufactorial(n - 1);
    proof {
        lemma_wfact_small(n as nat);
        assert(n as nat * fact((n - 1) as nat) == fact(n as nat));
    }
    n * rest
}

/// Calculate the factorial of `n` as a wrapping unsigned 64-bit product.
///
/// The loop may stop early: once the accumulated product has wrapped to
/// zero, every further factor keeps it there, so the result is already
/// known. That keeps the function fast for every argument.
pub fn wfactorial(n: u64) -> (r: u64)
    ensures
        r == wfact(n as nat),
{
    let mut acc: u64 = 1;
    let mut i: u64 = 0;
    while i < n && acc != 0
        invariant
            i <= n,
            acc == wfact(i as nat),
        decreases n - i,
    {
        i = i + 1;
        proof {
            assert(acc as nat * i as nat == i as nat * acc as nat) by (nonlinear_arith);
        }
        acc = acc.wrapping_mul(i);
    }
    if i < n {
        proof {
            lemma_wfact_zero_absorbs(i as nat, n as nat);
        }
    }
    acc
}

} // verus!
