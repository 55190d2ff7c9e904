//! A proof about an execution that satisfies its constraints is accepted.
use crate::accept_laws::openable;
use crate::block_accept_laws::{gens_agree, lemma_scaled_value};
use crate::block_laws::lemma_weights;
use crate::commitments::commitment;
use crate::consis_laws::{
    execution_canonical, execution_satisfied, law_execution_claims, law_execution_first_claim,
    law_execution_second_claim, one_program,
};
use crate::dense_mlpoly::{eq_evals, evaluation};
use crate::group::encodes_uniquely;
use crate::middle_laws::{law_middle_holds, middle_checked, Joint};
use crate::nizk::scaled;
use crate::poly_eval::{eval_verify, plain_prove};
use crate::public_laws::law_matrices_value;
use crate::r1cs_laws::{law_leftovers, lemma_dot_weighted};
use crate::r1cs_open_laws::{execution_invertible, law_execution_opening_accepted};
use crate::r1csinstance::list_value;
use crate::r1csproof::{ConsisInput, ConsisView};
use crate::scalar::{lemma_constants, sadd, smul, szero, Scalar};
use crate::sigma_laws::{equality_checked, law_equality_holds};
use crate::sparse_mlpoly::plain_commitment;
use crate::sumcheck::{leftovers, Comb};
use crate::sumcheck_accept_laws::{law_sumcheck_holds, sumcheck_checked, sumcheck_sized, Followed};
use crate::sums::all_canonical;
use crate::tables::column_table;
use crate::transcript::{challenges, History};
use crate::vectors::{lemma_sum_canonical, pointwise};
use vstd::prelude::*;

verus! {

/// What a verifier of a proof about an execution comes to.
#[verifier::ext_equal]
pub struct ExecutionChecked {
    /// Whether the proof holds.
    pub holds: bool,
    /// The coordinates of the executed block.
    pub rq: Seq<Scalar>,
    /// The coordinates of the row.
    pub rx: Seq<Scalar>,
    /// The coordinates of the column.
    pub ry: Seq<Scalar>,
    /// The transcript.
    pub th: History,
}

/// What a verifier who knows the execution finds of a proof about it.
#[verifier::opaque]
pub open spec fn execution_checked(i: ConsisInput, p: ConsisView, th: History) -> ExecutionChecked {
    let (nq, nx, ny) = (i.nq(), i.nx(), i.ny());
    let pc = i.gens.gens_pc@;
    let (g1, g3, g4) = (
        i.gens.gens_sc.gens_1@,
        i.gens.gens_sc.gens_3@,
        i.gens.gens_sc.gens_4@,
    );
    let (t, h1) = challenges(th, "challenge_tau"@, nq + nx);
    let zero = commitment(seq![szero()], szero(), g1);
    let f1 = sumcheck_checked(p.sc1, zero, g1, g4, 4, h1, nq + nx);
    let rq = f1.r.take(nq as int);
    let rx = f1.r.skip(nq as int);
    let tau = evaluation(eq_evals(t), f1.r);
    let mid = middle_checked(g1, tau, f1.claim, p.claims, f1.th);
    let f2 = sumcheck_checked(p.sc2, mid.claim, g1, g3, 3, mid.th, ny);
    let ry = f2.r;
    let (opened, h2) = eval_verify(
        pc,
        rq + ry.skip(1),
        p.comm,
        plain_commitment(i.combined(ry[0]), pc.0),
        p.eval,
        f2.th,
    );
    let (ep, ex, ey) = (eq_evals(Seq::empty()), eq_evals(rx), eq_evals(ry));
    let factor = sadd(
        sadd(
            smul(mid.ra, list_value(i.inst.a, ep, ex, ey)),
            smul(mid.rb, list_value(i.inst.b, ep, ex, ey)),
        ),
        smul(mid.rc, list_value(i.inst.c, ep, ex, ey)),
    );
    let (met, h3) = equality_checked(g1, scaled(p.comm, factor), f2.claim, p.eq2, h2);
    let sized = sumcheck_sized(p.sc1, nq + nx) && sumcheck_sized(p.sc2, ny);
    ExecutionChecked {
        holds: sized && f1.holds && mid.holds && f2.holds && opened && met,
        rq,
        rx,
        ry,
        th: h3,
    }
}

/// What a verifier computes of the matrices is what the second table of the
/// second sum-check comes to.
proof fn lemma_execution_public(
    i: ConsisInput,
    r: Seq<Scalar>,
    ra: Scalar,
    rb: Scalar,
    rc: Scalar,
    ry: Seq<Scalar>,
)
    requires
        i.wf(),
        r.len() == i.nq() + i.nx(),
        ry.len() == i.ny(),
    ensures
        ({
            let t = i.second_tables(r, ra, rb, rc);
            let (ep, ex, ey) = (
                eq_evals(Seq::empty()),
                eq_evals(r.skip(i.nq() as int)),
                eq_evals(ry),
            );
            evaluation(t[1], ry) == sadd(
                sadd(
                    smul(ra, list_value(i.inst.a, ep, ex, ey)),
                    smul(rb, list_value(i.inst.b, ep, ex, ey)),
                ),
                smul(rc, list_value(i.inst.c, ep, ex, ey)),
            )
        }),
{
    i.lemma_sizes();
    let none = Seq::<Scalar>::empty();
    let rx = r.skip(i.nq() as int);
    let ex = eq_evals(rx);
    lemma_weights(rx);
    lemma_weights(ry);
    vstd::arithmetic::power2::lemma2_to64();
    law_matrices_value(i.inst.a, ex, none, ry);
    law_matrices_value(i.inst.b, ex, none, ry);
    law_matrices_value(i.inst.c, ex, none, ry);
    assert(none + ry =~= ry);
    let z_len = 2 * i.width;
    lemma_dot_weighted(
        eq_evals(ry),
        ra,
        rb,
        rc,
        column_table(i.inst.a, ex, z_len),
        column_table(i.inst.b, ex, z_len),
        column_table(i.inst.c, ex, z_len),
    );
}

/// The first sum-check over a satisfied execution, and the step after it, hold.
proof fn lemma_execution_first(i: ConsisInput, th: History, rh: History)
    requires
        encodes_uniquely(),
        i.wf(),
        execution_canonical(i),
        execution_satisfied(i),
        one_program(i),
        gens_agree(i.gens),
    ensures
        ({
            let (g1, g4) = (i.gens.gens_sc.gens_1@, i.gens.gens_sc.gens_4@);
            let n = i.nq() + i.nx();
            let (t, h) = challenges(th, "challenge_tau"@, n);
            let s1 = i.first_check(th, rh).0;
            let m = i.middle(th, rh);
            let zero = commitment(seq![szero()], szero(), g1);
            let tau = evaluation(eq_evals(t), s1.r);
            &&& sumcheck_sized(s1.messages(), n)
            &&& s1.r.len() == n
            &&& all_canonical(s1.r)
            &&& sumcheck_checked(s1.messages(), zero, g1, g4, 4, h, n) == (Followed {
                holds: true,
                claim: s1.comm_claim,
                r: s1.r,
                th: s1.th,
            })
            &&& middle_checked(g1, tau, s1.comm_claim, m.claims, s1.th) == (Joint {
                holds: true,
                ra: m.ra,
                rb: m.rb,
                rc: m.rc,
                claim: commitment(seq![m.claim], m.blind, g1),
                th: m.th,
            })
            &&& m.claim.canonical()
            &&& m.blind.canonical()
        }),
{
    lemma_constants();
    let (g1, g4) = (i.gens.gens_sc.gens_1@, i.gens.gens_sc.gens_4@);
    let n = i.nq() + i.nx();
    let t = i.first_tables(th);
    let h = challenges(th, "challenge_tau"@, n).1;
    law_execution_first_claim(i, th);
    law_leftovers(szero(), szero(), n, t, Comb::Additive, g1, g4, h, rh);
    law_sumcheck_holds(szero(), szero(), n, t, Comb::Additive, g1, g4, h, rh);
    law_execution_claims(i, th, rh);
    let (s1, t1) = i.first_check(th, rh);
    let l = leftovers(t1);
    assert(l == t.map_values(|x: Seq<Scalar>| evaluation(x, s1.r)));
    let e = eq_evals(s1.r);
    lemma_sum_canonical(pointwise(e, t[0]));
    lemma_sum_canonical(pointwise(e, t[1]));
    lemma_sum_canonical(pointwise(e, t[2]));
    lemma_sum_canonical(pointwise(e, t[3]));
    law_middle_holds(g1, l[0], l[1], l[2], l[3], s1.blind, s1.th, s1.rh);
}

/// The second sum-check over a satisfied execution holds, and ends in the value
/// that is opened times what a verifier computes.
proof fn lemma_execution_second(i: ConsisInput, th: History, rh: History)
    requires
        encodes_uniquely(),
        i.wf(),
        execution_canonical(i),
        execution_satisfied(i),
        one_program(i),
        gens_agree(i.gens),
    ensures
        ({
            let (g1, g3) = (i.gens.gens_sc.gens_1@, i.gens.gens_sc.gens_3@);
            let n = i.ny();
            let s1 = i.first_check(th, rh).0;
            let m = i.middle(th, rh);
            let (s2, t2) = i.second_check(th, rh);
            let joint = commitment(seq![m.claim], m.blind, g1);
            let l = leftovers(t2);
            let u = i.second_tables(s1.r, m.ra, m.rb, m.rc);
            &&& sumcheck_sized(s2.messages(), n)
            &&& s2.r.len() == n
            &&& sumcheck_checked(s2.messages(), joint, g1, g3, 3, m.th, n) == (Followed {
                holds: true,
                claim: s2.comm_claim,
                r: s2.r,
                th: s2.th,
            })
            &&& s2.comm_claim == commitment(seq![smul(l[0], l[1])], s2.blind, g1)
            &&& s2.blind.canonical()
            &&& l[1] == evaluation(u[1], s2.r)
        }),
{
    lemma_execution_first(i, th, rh);
    law_execution_claims(i, th, rh);
    let (g1, g3) = (i.gens.gens_sc.gens_1@, i.gens.gens_sc.gens_3@);
    let n = i.ny();
    let s1 = i.first_check(th, rh).0;
    let m = i.middle(th, rh);
    let u = i.second_tables(s1.r, m.ra, m.rb, m.rc);
    law_execution_second_claim(i, s1.r, m.ra, m.rb, m.rc);
    law_leftovers(m.claim, m.blind, n, u, Comb::Quad, g1, g3, m.th, m.rh);
    law_sumcheck_holds(m.claim, m.blind, n, u, Comb::Quad, g1, g3, m.th, m.rh);
    let (s2, t2) = i.second_check(th, rh);
    assert(leftovers(t2) == u.map_values(|x: Seq<Scalar>| evaluation(x, s2.r)));
}

/// A proof about an execution that satisfies its constraints is accepted, and
/// leaves prover and verifier with the same coordinates and the same transcript,
/// wherever the challenges of the opening have inverses and the constraints
/// that are multiplied with the execution are those of the execution.
pub proof fn law_execution_accepted(i: ConsisInput, th: History, rh: History)
    requires
        encodes_uniquely(),
        i.wf(),
        execution_canonical(i),
        execution_satisfied(i),
        one_program(i),
        openable(i.gens.gens_pc@, i.gens.gens_pc@.0, (i.nq() + i.ny() - 1) as nat),
        gens_agree(i.gens),
        execution_invertible(i, th, rh),
    ensures
        ({
            let out = i.prove(th, rh);
            execution_checked(i, out.proof, th) == (ExecutionChecked {
                holds: true,
                rq: out.rq,
                rx: out.rx,
                ry: out.ry,
                th: out.th,
            })
        }),
{
    lemma_execution_first(i, th, rh);
    lemma_execution_second(i, th, rh);
    let s1 = i.first_check(th, rh).0;
    let m = i.middle(th, rh);
    let (s2, t2) = i.second_check(th, rh);
    let l = leftovers(t2);
    let rq = s1.r.take(i.nq() as int);
    let z = i.combined(s2.r[0]);
    let point = rq + s2.r.skip(1);
    let value = evaluation(z, point);
    assert(l[0] == value) by {
        law_execution_claims(i, th, rh);
    }
    lemma_execution_public(i, s1.r, m.ra, m.rb, m.rc, s2.r);
    let pc = i.gens.gens_pc@;
    let g1 = i.gens.gens_sc.gens_1@;
    lemma_scaled_value(value, l[1], g1);
    let o = plain_prove(pc, z, point, value, s2.th, s2.rh);
    lemma_constants();
    law_equality_holds(g1, smul(value, l[1]), szero(), s2.blind, o.th, o.rh);
    law_execution_opening_accepted(i, th, rh);
    reveal(ConsisInput::prove);
    reveal(execution_checked);
}

} // verus!
