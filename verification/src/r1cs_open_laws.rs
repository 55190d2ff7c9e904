//! The openings in a proof of satisfiability are accepted.
use crate::accept_laws::{invertible_at, lemma_open_all, openable, openings_invertible};
use crate::bullet_laws::all_invertible;
use crate::commitments::{commitment, Gens};
use crate::committed::mat_commitments;
use crate::dense_mlpoly::{evaluation, lemma_factored, left_vars, right_vars};
use crate::field::{mul_zero, neutral};
use crate::group::{encodes_uniquely, logs, msm, CompressedGroup};
use crate::math::{lemma_log2_of_pow2, log2_up};
use crate::nizk::pair_commitment;
use crate::opening_laws::{law_value_accepted, lemma_commitment_log, opening_challenges};
use crate::openings::open_all;
use crate::poly_eval::{eval_verify, plain_prove, plain_verify};
use crate::poly_laws::lemma_dot_two;
use crate::r1cs_laws::lemma_check_challenges;
use crate::r1csproof::{block_taus, mixed, BlockInput, ConsisInput};
use crate::scalar::{sone, ssub, szero, Scalar};
use crate::sparse_mlpoly::plain_commitment;
use crate::sumcheck::Comb;
use crate::sums::{added, dot_added, dot_push, dot_scaled, scaled_list};
use crate::transcript::{challenges, History};
use crate::vectors::{dot, flat, lemma_sum_canonical, pointwise};
use vstd::arithmetic::power2::pow2;
use vstd::prelude::*;

verus! {

/// The commitments that a verifier mixes from those to two polynomials: `1 - r`
/// of the first and `r` of the second.
pub open spec fn mixed_commitment(
    a: Seq<CompressedGroup>,
    b: Seq<CompressedGroup>,
    r: Scalar,
) -> Seq<CompressedGroup> {
    Seq::new(a.len(), |k: int| pair_commitment(ssub(sone(), r), r, a[k], b[k]))
}

/// The logarithm of a commitment without a blind.
proof fn lemma_plain_log(x: Seq<Scalar>, gens: Gens)
    requires
        encodes_uniquely(),
        x.len() <= gens.g.len(),
    ensures
        commitment(x, szero(), gens).log() == dot(x, logs(gens.g.take(x.len() as int))),
        dot(x.push(szero()), logs(gens.g.take(x.len() as int).push(gens.h))) == dot(
            x,
            logs(gens.g.take(x.len() as int)),
        ),
{
    let g = gens.g.take(x.len() as int);
    lemma_commitment_log(x, szero(), gens);
    mul_zero(gens.h.log());
    lemma_sum_canonical(pointwise(x, logs(g)));
    neutral(dot(x, logs(g)));
    assert(logs(g.push(gens.h)) =~= logs(g).push(gens.h.log()));
    dot_push(x, szero(), logs(g), gens.h.log());
}

/// The commitment to mixed values is the mix of the commitments.
pub proof fn law_mixed_commitment(
    a: Seq<Scalar>,
    b: Seq<Scalar>,
    r: Scalar,
    gens: Gens,
    ell: nat,
)
    requires
        encodes_uniquely(),
        a.len() == pow2(ell),
        b.len() == pow2(ell),
        pow2(right_vars(ell)) <= gens.g.len(),
    ensures
        plain_commitment(mixed(a, b, r), gens) == mixed_commitment(
            plain_commitment(a, gens),
            plain_commitment(b, gens),
            r,
        ),
{
    let m = mixed(a, b, r);
    let w = pow2(right_vars(ell));
    lemma_log2_of_pow2(ell);
    lemma_factored(ell);
    let (cm, ca, cb) = (
        plain_commitment(m, gens),
        plain_commitment(a, gens),
        plain_commitment(b, gens),
    );
    let want = mixed_commitment(ca, cb, r);
    let s = ssub(sone(), r);
    let lg = logs(gens.g.take(w as int));
    assert forall|i: int| 0 <= i < cm.len() implies cm[i] == want[i] by {
        assert(0 <= i * w && i * w + w <= pow2(left_vars(ell)) * w) by (nonlinear_arith)
            requires
                0 <= i < pow2(left_vars(ell)),
                0 <= w,
        ;
        let (x, y, z) = (
            a.subrange(i * w, i * w + w),
            b.subrange(i * w, i * w + w),
            m.subrange(i * w, i * w + w),
        );
        assert(z =~= added(scaled_list(s, x), scaled_list(r, y)));
        dot_added(scaled_list(s, x), scaled_list(r, y), lg);
        dot_scaled(s, x, lg);
        dot_scaled(r, y, lg);
        lemma_plain_log(x, gens);
        lemma_plain_log(y, gens);
        lemma_plain_log(z, gens);
        assert(logs(seq![ca[i], cb[i]]) =~= seq![ca[i].log(), cb[i].log()]);
        lemma_dot_two(s, r, ca[i].log(), cb[i].log());
        reveal(msm);
    }
    assert(cm =~= want);
}

proof fn lemma_block_challenges(i: BlockInput, th: History, rh: History)
    ensures
        i.first_check(th, rh).0.r.len() == i.nx() + i.nq() + i.np(),
        i.second_check(th, rh).0.r.len() == i.np() + i.ny(),
{
    let (g1, g4) = (i.gens.gens_sc.gens_1@, i.gens.gens_sc.gens_4@);
    lemma_check_challenges(
        szero(),
        szero(),
        i.nx() + i.nq() + i.np(),
        i.first_tables(th),
        Comb::Additive,
        g1,
        g4,
        block_taus(i, th).3,
        rh,
    );
    let mid = i.middle(th, rh);
    lemma_check_challenges(
        mid.claim,
        mid.blind,
        i.np() + i.ny(),
        i.second_tables(i.first_check(th, rh).0.r, mid.ra, mid.rb, mid.rc),
        Comb::Cubic,
        g1,
        g4,
        mid.th,
        mid.rh,
    );
}

proof fn lemma_execution_challenges(i: ConsisInput, th: History, rh: History)
    ensures
        i.first_check(th, rh).0.r.len() == i.nq() + i.nx(),
        i.second_check(th, rh).0.r.len() == i.ny(),
{
    let g1 = i.gens.gens_sc.gens_1@;
    let n = i.nq() + i.nx();
    lemma_check_challenges(
        szero(),
        szero(),
        n,
        i.first_tables(th),
        Comb::Additive,
        g1,
        i.gens.gens_sc.gens_4@,
        challenges(th, "challenge_tau"@, n).1,
        rh,
    );
    let mid = i.middle(th, rh);
    lemma_check_challenges(
        mid.claim,
        mid.blind,
        i.ny(),
        i.second_tables(i.first_check(th, rh).0.r, mid.ra, mid.rb, mid.rc),
        Comb::Quad,
        g1,
        i.gens.gens_sc.gens_3@,
        mid.th,
        mid.rh,
    );
}

/// Whether the generators of a proof about blocks can open them.
pub open spec fn block_openable(i: BlockInput) -> bool {
    let pc = i.gens.gens_pc@;
    forall|p: int|
        0 <= p < i.vars.len() ==> openable(
            pc,
            pc.0,
            (log2_up((#[trigger] i.vars[p]).len()) + i.ny() - 1) as nat,
        )
}

/// Whether the challenges of the openings of blocks in a proof have inverses.
pub open spec fn block_invertible(i: BlockInput, th: History, rh: History) -> bool {
    let s1 = i.first_check(th, rh).0;
    let s2 = i.second_check(th, rh).0;
    let rq = i.copy_part(s1.r).reverse();
    let ry = s2.r.skip(i.np() as int);
    openings_invertible(i.gens.gens_pc@, i.openings(rq, ry), s2.th, s2.rh, i.vars.len())
}

/// The openings of blocks in a proof are accepted against the mix of the
/// commitments to variables and inputs, one after the other, from where the
/// second sum-check ended, wherever the challenges have inverses.
pub proof fn law_block_openings_accepted(i: BlockInput, th: History, rh: History, p: int)
    requires
        encodes_uniquely(),
        i.wf(),
        block_openable(i),
        0 <= p < i.vars.len(),
        block_invertible(i, th, rh),
    ensures
        ({
            let pc = i.gens.gens_pc@;
            let out = i.prove(th, rh);
            let s2 = i.second_check(th, rh).0;
            let rq = out.rq_rev.reverse();
            let opened = i.openings(rq, out.ry);
            let before = open_all(pc, opened, s2.th, s2.rh, p as nat).1;
            let after = open_all(pc, opened, s2.th, s2.rh, (p + 1) as nat).1;
            eval_verify(
                pc,
                opened[p].point,
                out.proof.comm_list[p],
                mixed_commitment(
                    mat_commitments(i.vars, pc.0)[p],
                    mat_commitments(i.inputs, pc.0)[p],
                    out.ry[0],
                ),
                out.proof.evals[p],
                before,
            ) == (true, after)
        }),
{
    reveal(BlockInput::prove);
    i.lemma_sizes();
    i.lemma_opening(p);
    lemma_block_challenges(i, th, rh);
    let pc = i.gens.gens_pc@;
    let out = i.prove(th, rh);
    let s2 = i.second_check(th, rh).0;
    let rq = out.rq_rev.reverse();
    let opened = i.openings(rq, out.ry);
    let o = opened[p];
    let ell = (log2_up(i.vars[p].len()) + i.ny() - 1) as nat;
    assert(openable(pc, pc.0, (log2_up(i.vars[p].len()) + i.ny() - 1) as nat));
    assert(o.point.len() == ell);
    assert(invertible_at(pc, opened, s2.th, s2.rh, p));
    let (ps, before, tape) = open_all(pc, opened, s2.th, s2.rh, p as nat);
    law_value_accepted(pc, pc.0, o.z, o.point, before, tape);
    law_mixed_commitment(flat(i.vars[p]), flat(i.inputs[p]), out.ry[0], pc.0, ell);
    lemma_open_all(pc, opened, s2.th, s2.rh, (p + 1) as nat, opened.len());
    lemma_open_all(pc, opened, s2.th, s2.rh, p as nat, (p + 1) as nat);
    let all = open_all(pc, opened, s2.th, s2.rh, opened.len()).0;
    assert(all[p] == all.take(p + 1)[p]);
    reveal(plain_verify);
}

/// Whether the challenges of the opening of an execution in a proof have
/// inverses.
pub open spec fn execution_invertible(i: ConsisInput, th: History, rh: History) -> bool {
    let s1 = i.first_check(th, rh).0;
    let s2 = i.second_check(th, rh).0;
    let point = s1.r.take(i.nq() as int) + s2.r.skip(1);
    all_invertible(
        opening_challenges(i.gens.gens_pc@, i.combined(s2.r[0]), point, s2.th, s2.rh),
    )
}

/// The opening of the execution in a proof is accepted against the commitment
/// to what is opened, from where the second sum-check ended, wherever the
/// challenges have inverses.
pub proof fn law_execution_opening_accepted(i: ConsisInput, th: History, rh: History)
    requires
        encodes_uniquely(),
        i.wf(),
        openable(i.gens.gens_pc@, i.gens.gens_pc@.0, (i.nq() + i.ny() - 1) as nat),
        execution_invertible(i, th, rh),
    ensures
        ({
            let pc = i.gens.gens_pc@;
            let out = i.prove(th, rh);
            let s2 = i.second_check(th, rh).0;
            let z = i.combined(out.ry[0]);
            let point = out.rq + out.ry.skip(1);
            eval_verify(
                pc,
                point,
                out.proof.comm,
                plain_commitment(z, pc.0),
                out.proof.eval,
                s2.th,
            ) == (true, plain_prove(pc, z, point, evaluation(z, point), s2.th, s2.rh).th)
        }),
{
    reveal(ConsisInput::prove);
    i.lemma_sizes();
    lemma_execution_challenges(i, th, rh);
    let pc = i.gens.gens_pc@;
    let out = i.prove(th, rh);
    let s2 = i.second_check(th, rh).0;
    let z = i.combined(out.ry[0]);
    let point = out.rq + out.ry.skip(1);
    assert(point.len() == i.nq() + i.ny() - 1);
    law_value_accepted(pc, pc.0, z, point, s2.th, s2.rh);
    reveal(plain_verify);
}

} // verus!
