//! Powers of two and binary digits.
use crate::scalar::{sone, szero, Scalar};
use vstd::arithmetic::div_mod::lemma_div_denominator;
use vstd::arithmetic::power2::{
    lemma_pow2_pos, lemma_pow2_strictly_increases, lemma_pow2_unfold, pow2,
};
use vstd::prelude::*;

verus! {

/// The logarithm to base two, rounded up.
pub open spec fn log2_up(n: nat) -> nat
    decreases n,
{
    if n <= 1 {
        0
    } else {
        1 + log2_up((n + 1) / 2)
    }
}

/// The smallest power of two that is not smaller than a number.
pub open spec fn next_pow2(n: nat) -> nat {
    pow2(log2_up(n))
}

/// Whether a number is a power of two.
pub open spec fn is_pow2(n: nat) -> bool {
    next_pow2(n) == n
}

/// `log2_up` is the least exponent whose power of two reaches the number.
pub proof fn lemma_log2_up(n: nat)
    ensures
        n <= pow2(log2_up(n)),
        n > 1 ==> log2_up(n) > 0 && pow2((log2_up(n) - 1) as nat) < n,
        log2_up(n) <= n,
    decreases n,
{
    if n <= 1 {
        lemma_pow2_pos(0);
    } else {
        let m = (n + 1) / 2;
        lemma_log2_up(m);
        lemma_pow2_unfold(log2_up(n));
        if m > 1 {
            lemma_pow2_unfold(log2_up(m));
        } else {
            lemma_pow2_pos(0);
            assert(pow2(0) == 1) by {
                vstd::arithmetic::power2::lemma2_to64();
            }
        }
    }
}

/// The logarithm of a machine number is small.
pub proof fn lemma_log2_small(n: usize)
    ensures
        log2_up(n as nat) <= 64,
{
    lemma_log2_up(n as nat);
    vstd::arithmetic::power2::lemma2_to64();
    let k = log2_up(n as nat);
    if k > 65 {
        lemma_pow2_strictly_increases(64, (k - 1) as nat);
    }
}

/// The logarithm of a power of two is its exponent.
pub proof fn lemma_log2_of_pow2(k: nat)
    ensures
        log2_up(pow2(k)) == k,
        is_pow2(pow2(k)),
    decreases k,
{
    if k == 0 {
        vstd::arithmetic::power2::lemma2_to64();
    } else {
        lemma_log2_of_pow2((k - 1) as nat);
        lemma_pow2_unfold(k);
        lemma_pow2_pos((k - 1) as nat);
    }
}

/// The next power of two of one is one, and a power of two is its own.
pub proof fn lemma_next_pow2(n: nat)
    ensures
        n <= next_pow2(n),
        next_pow2(n) >= 1,
        n >= 1 ==> next_pow2(n) < 2 * n,
        is_pow2(next_pow2(n)),
{
    lemma_log2_up(n);
    lemma_pow2_pos(log2_up(n));
    lemma_log2_of_pow2(log2_up(n));
    if n > 1 {
        lemma_pow2_unfold(log2_up(n));
    } else {
        vstd::arithmetic::power2::lemma2_to64();
    }
}

/// The logarithm grows with the number.
pub proof fn lemma_log2_monotone(m: nat, n: nat)
    requires
        m <= n,
    ensures
        log2_up(m) <= log2_up(n),
    decreases n,
{
    if m > 1 {
        lemma_log2_monotone((m + 1) / 2, (n + 1) / 2);
    }
}

/// The logarithm to base two of a number that is not zero, rounded up.
pub fn log_2(n: usize) -> (r: usize)
    requires
        n != 0,
    ensures
        r == log2_up(n as nat),
{
    let mut k: usize = 0;
    let mut m: usize = n;
    while m > 1
        invariant
            k + m <= n,
            log2_up(n as nat) == k + log2_up(m as nat),
        decreases m,
    {
        m = m / 2 + m % 2;
        k += 1;
    }
    k
}

/// The smallest power of two that is not smaller than `n`.
pub fn next_power_of_two(n: usize) -> (r: usize)
    requires
        next_pow2(n as nat) <= usize::MAX,
    ensures
        r == next_pow2(n as nat),
{
    proof {
        lemma_log2_up(n as nat);
        vstd::arithmetic::power2::lemma2_to64();
    }
    let mut p: usize = 1;
    let ghost mut k: nat = 0;
    while p < n
        invariant
            p == pow2(k),
            k <= log2_up(n as nat),
            n <= pow2(log2_up(n as nat)),
            n > 1 ==> log2_up(n as nat) > 0 && pow2((log2_up(n as nat) - 1) as nat) < n,
            pow2(log2_up(n as nat)) <= usize::MAX,
            p >= 1,
        decreases 2 * n - p,
    {
        proof {
            lemma_pow2_unfold(k + 1);
            if k == log2_up(n as nat) {
                assert(false);
            }
            if k + 1 < log2_up(n as nat) {
                lemma_pow2_strictly_increases(k + 1, log2_up(n as nat));
            }
            k = k + 1;
        }
        p = p * 2;
    }
    proof {
        if n > 1 && k < log2_up(n as nat) {
            if k < log2_up(n as nat) - 1 {
                lemma_pow2_strictly_increases(k, (log2_up(n as nat) - 1) as nat);
            }
        }
    }
    p
}

/// Two to the power of `k`.
pub fn pow_2(k: usize) -> (r: usize)
    requires
        pow2(k as nat) <= usize::MAX,
    ensures
        r == pow2(k as nat),
{
    proof {
        vstd::arithmetic::power2::lemma2_to64();
    }
    let mut p: usize = 1;
    let mut i: usize = 0;
    while i < k
        invariant
            i <= k,
            p == pow2(i as nat),
            pow2(k as nat) <= usize::MAX,
        decreases k - i,
    {
        proof {
            lemma_pow2_unfold(i as nat + 1);
            if i + 1 < k {
                lemma_pow2_strictly_increases(i as nat + 1, k as nat);
            }
        }
        p = p * 2;
        i += 1;
    }
    p
}

/// A binary digit as a scalar.
pub open spec fn bit(b: nat) -> Scalar {
    if b % 2 == 1 {
        sone()
    } else {
        szero()
    }
}

/// The last `len` binary digits of a number, the most significant one first.
pub open spec fn bits(x: nat, len: nat) -> Seq<Scalar> {
    Seq::new(len, |j: int| bit(x / pow2((len - 1 - j) as nat)))
}

/// The last `len` binary digits of `x`, the most significant one first.
pub fn to_bin_array(x: usize, len: usize) -> (r: Vec<Scalar>)
    ensures
        r@ == bits(x as nat, len as nat),
{
    let mut r: Vec<Scalar> = vec![Scalar::zero(); len];
    let mut y: usize = x;
    let mut k: usize = 0;
    proof {
        vstd::arithmetic::power2::lemma2_to64();
    }
    while k < len
        invariant
            k <= len,
            r@.len() == len,
            y as nat == x as nat / pow2(k as nat),
            forall|j: int| len - k <= j < len ==> r@[j] == bits(x as nat, len as nat)[j],
        decreases len - k,
    {
        let b = if y % 2 == 1 { Scalar::one() } else { Scalar::zero() };
        r.set(len - 1 - k, b);
        proof {
            lemma_pow2_unfold(k as nat + 1);
            lemma_pow2_pos(k as nat);
            lemma_div_denominator(x as int, pow2(k as nat) as int, 2);
            assert(bits(x as nat, len as nat)[len - 1 - k] == bit(x as nat / pow2(k as nat)));
            assert(pow2(k as nat) * 2 == pow2(k as nat + 1));
        }
        y = y / 2;
        k += 1;
    }
    assert(r@ =~= bits(x as nat, len as nat));
    r
}

} // verus!
