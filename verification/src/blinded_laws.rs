//! Values of polynomials that are committed to under blinds.
use crate::bullet_laws::all_invertible;
use crate::commitments::{commitment, Gens};
use crate::dense_mlpoly::{
    combined_rows, eq_evals, evaluation, left_vars, lemma_eq_evals_len, right_vars,
    row_commitments,
};
use crate::field::{mul_comm, mul_zero, sub_self};
use crate::group::encodes_uniquely;
use crate::math::lemma_log2_of_pow2;
use crate::nizk::{dot_opening, dot_prove};
use crate::opening_laws::{
    dot_challenges, gens_valid, last_weights, law_inner_product_checked, law_rows_combine,
};
use crate::poly_eval::{column_weights, eval_prove, eval_verify};
use crate::poly_laws::{law_value_by_rows, lemma_eq_canonical};
use crate::scalar::{smul, ssub, szero, Scalar};
use crate::sums::dot_comm;
use crate::transcript::{named, History};
use crate::vectors::{dot, lemma_sum_canonical, pointwise};
use vstd::arithmetic::power2::pow2;
use vstd::prelude::*;

verus! {

/// A proof of a claimed value of a polynomial whose rows, like the value, are
/// committed to under blinds is accepted if and only if the claimed value is the
/// value, but for challenges that make the difference vanish. Either way prover
/// and verifier are left with the same transcript.
pub proof fn law_blinded_value_checked(
    gens: (Gens, Gens),
    z: Seq<Scalar>,
    blinds: Seq<Scalar>,
    r: Seq<Scalar>,
    value: Scalar,
    blind: Scalar,
    th: History,
    rh: History,
)
    requires
        encodes_uniquely(),
        gens_valid(gens.0, gens.1),
        z.len() == pow2(r.len()),
        blinds.len() == pow2(left_vars(r.len())),
        right_vars(r.len()) < 32,
        pow2(right_vars(r.len())) <= gens.0.g.len(),
        value.canonical(),
        ({
            let out = eval_prove(gens, z, blinds, r, value, blind, th, rh);
            let h = named(th, "polynomial evaluation proof");
            all_invertible(dot_challenges(column_weights(r), out.cx, out.cy, out.proof, h))
        }),
    ensures
        ({
            let out = eval_prove(gens, z, blinds, r, value, blind, th, rh);
            let h = named(th, "polynomial evaluation proof");
            let (c, b) = last_weights(column_weights(r), out.cx, out.cy, out.proof, h);
            let bound = smul(
                dot_opening(column_weights(r), out.cx, out.cy, h).0,
                gens.1.g[0].log(),
            );
            let comm = row_commitments(z, blinds, gens.0);
            let found = eval_verify(gens, r, out.cy, comm, out.proof, th);
            &&& out.cy == commitment(seq![value], blind, gens.1)
            &&& found.1 == out.th
            &&& found.0 <==> smul(smul(c, b), smul(ssub(value, evaluation(z, r)), bound))
                == szero()
        }),
{
    reveal(eval_prove);
    reveal(eval_verify);
    let ell = r.len();
    let out = eval_prove(gens, z, blinds, r, value, blind, th, rh);
    let left = left_vars(ell);
    let (rl, rr) = (r.take(left as int), r.skip(left as int));
    let (l, right) = (eq_evals(rl), eq_evals(rr));
    let w = pow2(right_vars(ell));
    lemma_eq_evals_len(rl);
    lemma_eq_evals_len(rr);
    lemma_log2_of_pow2(right_vars(ell));
    lemma_log2_of_pow2(ell);
    assert(rl + rr =~= r);
    law_value_by_rows(z, rl, rr);
    law_rows_combine(z, blinds, l, gens.0, ell);
    let x = combined_rows(z, l, w);
    assert(out.cx == commitment(x, dot(blinds, l), gens.0)) by {
        reveal(dot_prove);
    }
    assert(out.cy == commitment(seq![value], blind, gens.1)) by {
        reveal(dot_prove);
    }
    assert forall|i: int| 0 <= i < right.len() implies (#[trigger] right[i]).canonical() by {
        lemma_eq_canonical(rr, i);
    }
    let h = named(th, "polynomial evaluation proof");
    law_inner_product_checked(
        gens.0,
        gens.1,
        x,
        dot(blinds, l),
        right,
        value,
        blind,
        h,
        rh,
    );
    dot_comm(x, right);
}

/// A proof of the value of a polynomial that is committed to under blinds is
/// accepted, wherever the challenges have inverses.
pub proof fn law_blinded_value_accepted(
    gens: (Gens, Gens),
    z: Seq<Scalar>,
    blinds: Seq<Scalar>,
    r: Seq<Scalar>,
    blind: Scalar,
    th: History,
    rh: History,
)
    requires
        encodes_uniquely(),
        gens_valid(gens.0, gens.1),
        z.len() == pow2(r.len()),
        blinds.len() == pow2(left_vars(r.len())),
        right_vars(r.len()) < 32,
        pow2(right_vars(r.len())) <= gens.0.g.len(),
        ({
            let out = eval_prove(gens, z, blinds, r, evaluation(z, r), blind, th, rh);
            let h = named(th, "polynomial evaluation proof");
            all_invertible(dot_challenges(column_weights(r), out.cx, out.cy, out.proof, h))
        }),
    ensures
        ({
            let out = eval_prove(gens, z, blinds, r, evaluation(z, r), blind, th, rh);
            eval_verify(
                gens,
                r,
                commitment(seq![evaluation(z, r)], blind, gens.1),
                row_commitments(z, blinds, gens.0),
                out.proof,
                th,
            ) == (true, out.th)
        }),
{
    let value = evaluation(z, r);
    lemma_sum_canonical(pointwise(eq_evals(r), z));
    law_blinded_value_checked(gens, z, blinds, r, value, blind, th, rh);
    let out = eval_prove(gens, z, blinds, r, value, blind, th, rh);
    let h = named(th, "polynomial evaluation proof");
    let (c, b) = last_weights(column_weights(r), out.cx, out.cy, out.proof, h);
    let bound = smul(dot_opening(column_weights(r), out.cx, out.cy, h).0, gens.1.g[0].log());
    sub_self(value);
    mul_zero(bound);
    mul_comm(szero(), bound);
    mul_zero(smul(c, b));
    mul_comm(szero(), smul(c, b));
}

} // verus!
