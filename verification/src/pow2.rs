//! Powers of two: recognising one, rounding up to one, and the facts about
//! them that the allocators rest on.

use vstd::arithmetic::power2::{is_pow2, lemma_pow2_unfold, pow2};
use vstd::layout::{signed_int_min_max_values, unsigned_int_max_values};
use vstd::prelude::*;

verus! {

/// The least power of two that is not below `n`; it is 1 for every `n <= 1`.
pub open spec fn next_pow2(n: int) -> int
    decreases n,
{
    if n <= 1 {
        1
    } else {
        2 * next_pow2((n + 1) / 2)
    }
}

/// One is a power of two, and a power of two is at least one.
pub proof fn lemma_pow2_positive(p: int)
    ensures
        is_pow2(1),
        is_pow2(p) ==> p >= 1,
{
    reveal(is_pow2);
}

/// Twice a power of two is a power of two.
pub proof fn lemma_pow2_double(p: int)
    requires
        is_pow2(p),
    ensures
        is_pow2(2 * p),
{
    reveal(is_pow2);
}

/// Above one, a power of two is even and its half is a power of two.
pub proof fn lemma_pow2_half(p: int)
    requires
        is_pow2(p),
        p > 1,
    ensures
        p % 2 == 0,
        is_pow2(p / 2),
{
    reveal(is_pow2);
}

/// No power of two lies strictly between a power of two and its double.
pub proof fn lemma_pow2_gap(a: int, b: int)
    requires
        is_pow2(a),
        is_pow2(b),
        a < b,
    ensures
        2 * a <= b,
    decreases a,
{
    lemma_pow2_positive(a);
    if a > 1 {
        lemma_pow2_half(a);
        lemma_pow2_half(b);
        lemma_pow2_gap(a / 2, b / 2);
    } else {
        lemma_pow2_half(b);
    }
}

/// A power of two divides every greater power of two.
pub proof fn lemma_pow2_divides(a: int, b: int)
    requires
        is_pow2(a),
        is_pow2(b),
        a <= b,
    ensures
        b % a == 0,
    decreases b,
{
    lemma_pow2_positive(a);
    if a < b {
        lemma_pow2_gap(a, b);
        lemma_pow2_half(b);
        let h = b / 2;
        lemma_pow2_divides(a, h);
        let q = h / a;
        vstd::arithmetic::div_mod::lemma_fundamental_div_mod(h, a);
        assert(b == (2 * q) * a) by (nonlinear_arith)
            requires
                b == 2 * h,
                h == a * q,
        ;
        vstd::arithmetic::div_mod::lemma_mod_multiples_basic(2 * q, a);
    } else {
        vstd::arithmetic::div_mod::lemma_mod_self_0(a);
    }
}

/// `next_pow2(n)` is a power of two, is not below `n`, and no power of two
/// lies between `n` and it.
pub proof fn lemma_next_pow2(n: int)
    ensures
        is_pow2(next_pow2(n)),
        n <= next_pow2(n),
        n >= 2 ==> next_pow2(n) <= 2 * n - 2,
        forall|q: int| is_pow2(q) && n <= q ==> next_pow2(n) <= q,
    decreases n,
{
    lemma_pow2_positive(n);
    if n > 1 {
        let m = (n + 1) / 2;
        lemma_next_pow2(m);
        lemma_pow2_double(next_pow2(m));
    }
    let r = next_pow2(n);
    assert forall|q: int| is_pow2(q) && n <= q implies r <= q by {
        lemma_pow2_positive(q);
        if q < r {
            lemma_pow2_gap(q, r);
        }
    }
}

/// Rounding up to a power of two does not pass a power of two that bounds `n`.
pub proof fn lemma_next_pow2_bounded(n: int, bound: int)
    requires
        is_pow2(bound),
        n <= bound,
    ensures
        next_pow2(n) <= bound,
{
    lemma_next_pow2(n);
}

/// Two raised to any exponent is a power of two.
pub proof fn lemma_pow2_of_exponent(e: nat)
    ensures
        is_pow2(pow2(e) as int),
    decreases e,
{
    if e == 0 {
        vstd::arithmetic::power2::lemma2_to64();
        lemma_pow2_positive(1);
    } else {
        lemma_pow2_of_exponent((e - 1) as nat);
        lemma_pow2_unfold(e);
        lemma_pow2_double(pow2((e - 1) as nat) as int);
    }
}

/// The address space is twice as large as the greatest `isize` and one, which
/// is a power of two.
pub proof fn lemma_pow2_top()
    ensures
        is_pow2(isize::MAX + 1),
        usize::MAX == 2 * isize::MAX + 1,
{
    signed_int_min_max_values();
    unsigned_int_max_values();
    lemma_pow2_of_exponent((isize::BITS - 1) as nat);
    lemma_pow2_unfold(usize::BITS as nat);
}

/// Whether `n` is a power of two.
pub fn is_power_of_two(n: usize) -> (r: bool)
    ensures
        r == is_pow2(n as int),
{
    let mut m: usize = n;
    while m > 1 && m % 2 == 0
        invariant
            is_pow2(m as int) == is_pow2(n as int),
        decreases m,
    {
        proof {
            reveal(is_pow2);
        }
        m = m / 2;
    }
    proof {
        reveal(is_pow2);
    }
    m == 1
}

/// The least power of two that is not below `n`.
pub fn next_power_of_two(n: usize) -> (r: usize)
    requires
        next_pow2(n as int) <= usize::MAX,
    ensures
        r == next_pow2(n as int),
{
    let mut p: usize = 1;
    proof {
        lemma_next_pow2(n as int);
        lemma_pow2_positive(next_pow2(n as int));
    }
    while p < n
        invariant
            is_pow2(p as int),
            p <= next_pow2(n as int) <= usize::MAX,
            is_pow2(next_pow2(n as int)),
            n <= next_pow2(n as int),
        decreases next_pow2(n as int) - p,
    {
        proof {
            lemma_pow2_positive(p as int);
            lemma_pow2_gap(p as int, next_pow2(n as int));
            lemma_pow2_double(p as int);
        }
        p = p * 2;
    }
    proof {
        lemma_next_pow2(n as int);
    }
    p
}

} // verus!
