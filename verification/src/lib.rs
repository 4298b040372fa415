//! Two small arithmetic operations with fully specified wraparound
//! behaviour: signed 32-bit addition and the factorial of an unsigned
//! 32-bit integer, reduced modulo 2^64 where it no longer fits.

use vstd::prelude::*;

verus! {

use vstd::arithmetic::div_mod::{lemma_mul_mod_noop_left, lemma_small_mod};
use vstd::arithmetic::mul::{lemma_mul_inequality, lemma_mul_left_inequality};

/// The sum of `a` and `b` reduced into the signed 32-bit range by
/// two's-complement wraparound.
pub open spec fn wrapped_sum_i32(a: int, b: int) -> int {
    let s = a + b;
    if s > i32::MAX {
        s - 0x1_0000_0000
    } else if s < i32::MIN {
        s + 0x1_0000_0000
    } else {
        s
    }
}

/// The mathematical factorial of `n`, written as an accumulating
/// product in order from 1 to `n`.
pub open spec fn fact(n: nat) -> nat
    decreases n,
{
    if n == 0 {
        1
    } else {
        fact((n - 1) as nat) * n
    }
}

/// Adds two signed 32-bit integers; on overflow the result wraps
/// around modulo 2^32, it never traps.
pub fn add_numbers(a: i32, b: i32) -> (r: i32)
    ensures
        r == wrapped_sum_i32(a as int, b as int),
        i32::MIN <= a + b <= i32::MAX ==> r == a + b,
{
    a.wrapping_add(b)
}

/// Every factorial is at least 1.
pub proof fn lemma_fact_pos(n: nat)
    ensures
        fact(n) >= 1,
    decreases n,
{
    if n > 0 {
        lemma_fact_pos((n - 1) as nat);
        lemma_mul_inequality(1, fact((n - 1) as nat) as int, n as int);
    }
}

/// The factorial does not decrease as its argument grows.
pub proof fn lemma_fact_monotonic(m: nat, n: nat)
    requires
        m <= n,
    ensures
        fact(m) <= fact(n),
    decreases n,
{
    if m < n {
        lemma_fact_monotonic(m, (n - 1) as nat);
        lemma_fact_pos((n - 1) as nat);
        lemma_mul_left_inequality(fact((n - 1) as nat) as int, 1, n as int);
    }
}

/// For arguments up to 20 the factorial fits in 64 bits, so reducing
/// it modulo 2^64 leaves it unchanged.
pub proof fn lemma_fact_fits_u64(n: nat)
    requires
        n <= 20,
    ensures
        fact(n) <= u64::MAX,
        fact(n) % 0x1_0000_0000_0000_0000 == fact(n),
{
    lemma_fact_monotonic(n, 20);
    assert(fact(20) == 2432902008176640000) by {
        assert(fact(0) == 1);
        assert(fact(1) == 1);
        assert(fact(2) == 2);
        assert(fact(3) == 6);
        assert(fact(4) == 24);
        assert(fact(5) == 120);
        assert(fact(6) == 720);
        assert(fact(7) == 5040);
        assert(fact(8) == 40320);
        assert(fact(9) == 362880);
        assert(fact(10) == 3628800);
        assert(fact(11) == 39916800);
        assert(fact(12) == 479001600);
        assert(fact(13) == 6227020800);
        assert(fact(14) == 87178291200);
        assert(fact(15) == 1307674368000);
        assert(fact(16) == 20922789888000);
        assert(fact(17) == 355687428096000);
        assert(fact(18) == 6402373705728000);
        assert(fact(19) == 121645100408832000);
    }
    lemma_small_mod(fact(n), 0x1_0000_0000_0000_0000);
}

/// Computes the factorial of `n` as an accumulating product in order
/// from 1 to `n`, reduced modulo 2^64: exact for `n` up to 20, silent
/// wraparound beyond, never a trap.
pub fn factorial(n: u32) -> (r: u64)
    ensures
        r == fact(n as nat) % 0x1_0000_0000_0000_0000,
        n <= 20 ==> r == fact(n as nat),
{
    let mut acc: u64 = 1;
    let mut i: u32 = 0;
    while i < n
        invariant
            i <= n,
            acc == fact(i as nat) % 0x1_0000_0000_0000_0000,
        decreases n - i,
    {
        let ghost prev: nat = i as nat;
        i = i + 1;
        proof {
            assert(fact(i as nat) == fact(prev) * (i as nat));
            lemma_mul_mod_noop_left(fact(prev) as int, i as int, 0x1_0000_0000_0000_0000);
        }
        acc = acc.wrapping_mul(i as u64);
    }
    proof {
        if n <= 20 {
            lemma_fact_fits_u64(n as nat);
        }
    }
    acc
}

} // verus!
