//! The generators of a proof of satisfiability.
use crate::commitments::{derived_gens, Gens, MultiCommitGens};
use crate::dense_mlpoly::{right_vars, PolyCommitmentGens};
use crate::math::{log2_up, log_2};
use vstd::arithmetic::power2::pow2;
use vstd::prelude::*;

verus! {

/// The generators of the sum-checks: for one value, for polynomials of degree
/// two and for polynomials of degree three.
pub struct R1CSSumcheckGens {
    /// The generator for one value.
    pub gens_1: MultiCommitGens,
    /// The generators for three coefficients.
    pub gens_3: MultiCommitGens,
    /// The generators for four coefficients.
    pub gens_4: MultiCommitGens,
}

/// The same generators.
fn copy_gens(g: &MultiCommitGens) -> (r: MultiCommitGens)
    ensures
        r.n == g.n,
        r@ == g@,
{
    let points = crate::commitments::first_points(&g.g, g.g.len());
    assert(points@ =~= g.g@);
    MultiCommitGens { n: g.n, g: points, h: g.h }
}

impl R1CSSumcheckGens {
    /// The generators are in order.
    pub open spec fn wf(self) -> bool {
        &&& self.gens_1.wf()
        &&& self.gens_3.wf()
        &&& self.gens_4.wf()
        &&& self.gens_1.n == 1
        &&& self.gens_3.n == 3
        &&& self.gens_4.n == 4
    }

    /// Derives generators from a label, beside the given ones. They are in
    /// order where the given ones are, and are for one value.
    pub fn new(label: &'static [u8], gens_1_ref: &MultiCommitGens) -> (r: R1CSSumcheckGens)
        ensures
            gens_1_ref.wf() && gens_1_ref.n == 1 ==> r.wf(),
            r.gens_1.n == gens_1_ref.n,
            r.gens_1@ == gens_1_ref@,
            r.gens_3.wf(),
            r.gens_4.wf(),
            r.gens_3.n == 3,
            r.gens_4.n == 4,
            r.gens_3@ == derived_gens(label@, 3),
            r.gens_4@ == derived_gens(label@, 4),
    {
        let gens_1 = copy_gens(gens_1_ref);
        let gens_3 = MultiCommitGens::new(3, label);
        let gens_4 = MultiCommitGens::new(4, label);
        R1CSSumcheckGens { gens_1, gens_3, gens_4 }
    }
}

/// The generators of a proof of satisfiability.
pub struct R1CSGens {
    /// The generators of the sum-checks.
    pub gens_sc: R1CSSumcheckGens,
    /// The generators of the polynomial commitments.
    pub gens_pc: PolyCommitmentGens,
}

impl R1CSGens {
    /// The generators are in order.
    pub open spec fn wf(self) -> bool {
        &&& self.gens_sc.wf()
        &&& self.gens_pc.gens.wf()
    }

    /// Derives the generators for `num_vars` values from a label. The number
    /// of constraints has no part in it.
    pub fn new(label: &'static [u8], _num_cons: usize, num_vars: usize) -> (r: R1CSGens)
        requires
            num_vars != 0,
            pow2(right_vars(log2_up(num_vars as nat))) < crate::commitments::gens_bound(),
        ensures
            r.wf(),
            ({
                let n = pow2(right_vars(log2_up(num_vars as nat)));
                let all = derived_gens(label@, n + 1);
                &&& r.gens_pc.gens.n == n
                &&& r.gens_pc@.0 == (Gens { g: all.g.take(n as int), h: all.h })
                &&& r.gens_pc@.1 == (Gens { g: all.g.skip(n as int), h: all.h })
                &&& r.gens_sc.gens_1@ == r.gens_pc@.1
                &&& r.gens_sc.gens_3@ == derived_gens(label@, 3)
                &&& r.gens_sc.gens_4@ == derived_gens(label@, 4)
            }),
    {
        let num_block_poly_vars = log_2(num_vars);
        let gens_pc = PolyCommitmentGens::new(num_block_poly_vars, label);
        let gens_sc = R1CSSumcheckGens::new(label, &gens_pc.gens.gens_1);
        R1CSGens { gens_sc, gens_pc }
    }
}

} // verus!
