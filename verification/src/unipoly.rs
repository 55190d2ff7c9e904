//! Polynomials of one variable and of degree two or three.
use crate::commitments::{commitment, MultiCommitGens};
use crate::group::CompressedGroup;
use crate::scalar::{sadd, sinv, smul, ssub, Scalar};
use vstd::prelude::*;

verus! {

/// The inverse of a small number.
pub open spec fn inverse_of(n: nat) -> Scalar {
    sinv(Scalar::of(n))
}

/// A sum of three copies.
pub open spec fn thrice(x: Scalar) -> Scalar {
    sadd(sadd(x, x), x)
}

/// The leading coefficient of the quadratic polynomial with the given values
/// at 0, 1 and 2.
pub open spec fn quadratic_lead(e: Seq<Scalar>) -> Scalar {
    smul(inverse_of(2), sadd(ssub(ssub(e[2], e[1]), e[1]), e[0]))
}

/// The leading coefficient of the cubic polynomial with the given values at
/// 0, 1, 2 and 3.
pub open spec fn cubic_lead(e: Seq<Scalar>) -> Scalar {
    smul(inverse_of(6), ssub(sadd(ssub(e[3], thrice(e[2])), thrice(e[1])), e[0]))
}

/// The coefficient of the square in the cubic polynomial with the given
/// values.
pub open spec fn cubic_second(e: Seq<Scalar>) -> Scalar {
    smul(
        inverse_of(2),
        ssub(
            sadd(
                ssub(sadd(e[0], e[0]), sadd(thrice(e[1]), sadd(e[1], e[1]))),
                sadd(thrice(e[2]), e[2]),
            ),
            e[3],
        ),
    )
}

/// The coefficients, lowest first, of the polynomial with the given values at
/// 0, 1, 2 and, where there are four, 3.
pub open spec fn interpolated(e: Seq<Scalar>) -> Seq<Scalar> {
    if e.len() == 3 {
        let a = quadratic_lead(e);
        seq![e[0], ssub(ssub(e[1], e[0]), a), a]
    } else {
        let a = cubic_lead(e);
        let b = cubic_second(e);
        seq![e[0], ssub(ssub(ssub(e[1], e[0]), a), b), b, a]
    }
}

/// The value of the first `k` terms at a point, and the next power.
pub open spec fn horner_up(c: Seq<Scalar>, r: Scalar, k: nat) -> (Scalar, Scalar)
    decreases k,
{
    if k <= 1 {
        (c[0], r)
    } else {
        let (v, p) = horner_up(c, r, (k - 1) as nat);
        (sadd(v, smul(p, c[k - 1])), smul(p, r))
    }
}

/// The value at a point.
pub open spec fn uni_value(c: Seq<Scalar>, r: Scalar) -> Scalar {
    horner_up(c, r, c.len()).0
}

/// A polynomial, by its coefficients.
pub struct UniPoly {
    coeffs: Vec<Scalar>,
}

impl View for UniPoly {
    type V = Seq<Scalar>;

    closed spec fn view(&self) -> Seq<Scalar> {
        self.coeffs@
    }
}

fn small_inverse(n: u64) -> (r: Scalar)
    requires
        n > 0,
    ensures
        r == inverse_of(n as nat),
{
    let x = Scalar::from_u64(n);
    match x.invert() {
        Some(i) => i,
        None => x,
    }
}

fn triple(x: &Scalar) -> (r: Scalar)
    ensures
        r == thrice(*x),
{
    x.plus(x).plus(x)
}

impl UniPoly {
    /// The polynomial with the given values at 0, 1, 2 and, where there are
    /// four, 3.
    pub fn from_evals(e: &Vec<Scalar>) -> (r: UniPoly)
        requires
            e@.len() == 3 || e@.len() == 4,
        ensures
            r@ == interpolated(e@),
            r@.len() == e@.len(),
    {
        let two_inv = small_inverse(2);
        let coeffs: Vec<Scalar> = if e.len() == 3 {
            let a = two_inv.times(&e[2].minus(&e[1]).minus(&e[1]).plus(&e[0]));
            let b = e[1].minus(&e[0]).minus(&a);
            vec![e[0], b, a]
        } else {
            let six_inv = small_inverse(6);
            let a = six_inv.times(
                &e[3].minus(&triple(&e[2])).plus(&triple(&e[1])).minus(&e[0]),
            );
            let b = two_inv.times(
                &e[0].plus(&e[0]).minus(&triple(&e[1]).plus(&e[1].plus(&e[1]))).plus(
                    &triple(&e[2]).plus(&e[2]),
                ).minus(&e[3]),
            );
            let c = e[1].minus(&e[0]).minus(&a).minus(&b);
            vec![e[0], c, b, a]
        };
        assert(coeffs@ =~= interpolated(e@));
        UniPoly { coeffs }
    }

    /// The degree.
    pub fn degree(&self) -> (r: usize)
        requires
            self@.len() > 0,
        ensures
            r == self@.len() - 1,
    {
        self.coeffs.len() - 1
    }

    /// The coefficients.
    pub fn as_vec(&self) -> (r: &Vec<Scalar>)
        ensures
            r@ == self@,
    {
        &self.coeffs
    }

    /// The value at a point.
    pub fn evaluate(&self, r: &Scalar) -> (v: Scalar)
        requires
            self@.len() > 0,
        ensures
            v == uni_value(self@, *r),
    {
        let mut v = self.coeffs[0];
        let mut p = *r;
        let mut i: usize = 1;
        while i < self.coeffs.len()
            invariant
                1 <= i <= self.coeffs@.len(),
                (v, p) == horner_up(self.coeffs@, *r, i as nat),
            decreases self.coeffs@.len() - i,
        {
            v = v.plus(&p.times(&self.coeffs[i]));
            p = p.times(r);
            i += 1;
        }
        v
    }

    /// Commits to the coefficients.
    pub fn commit(&self, gens: &MultiCommitGens, blind: &Scalar) -> (r: CompressedGroup)
        requires
            gens.wf(),
            self@.len() <= gens.n,
        ensures
            r == commitment(self@, *blind, gens@),
            r.valid(),
    {
        gens.commit(&self.coeffs, blind)
    }
}

} // verus!
