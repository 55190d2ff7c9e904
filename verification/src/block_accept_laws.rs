//! A proof about blocks that satisfy their constraints is accepted.
use crate::accept_laws::lemma_open_all;
use crate::block_laws::{
    block_canonical, block_satisfied, law_block_claims, law_block_first_claim,
    law_block_second_claim, lemma_damped, lemma_weights,
};
use crate::commitments::{commitment, Gens};
use crate::committed::mat_commitments;
use crate::dense_mlpoly::{eq_evals, evaluation};
use crate::field::{canonical_ops, mul_assoc, mul_comm, mul_zero, neutral};
use crate::group::{encodes_uniquely, lemma_msm, logs, msm, CompressedGroup};
use crate::math::log2_up;
use crate::middle_laws::{law_middle_holds, middle_checked, Joint};
use crate::nizk::scaled;
use crate::opening_laws::{lemma_commit_one_log, lemma_commitment_log, lemma_scaled_log};
use crate::openings::{open_all, Opening};
use crate::poly_eval::eval_verify;
use crate::public_laws::{law_factors_value, law_matrices_value, law_stretched_value};
use crate::r1cs_laws::{law_leftovers, lemma_dot_weighted};
use crate::r1cs_open_laws::{
    block_invertible, block_openable, law_block_openings_accepted, mixed_commitment,
};
use crate::r1csgens::R1CSGens;
use crate::r1csinstance::{list_value, R1CS};
use crate::r1csproof::{block_taus, damped, BlockInput, BlockView};
use crate::scalar::{lemma_constants, sadd, smul, sone, szero, Scalar};
use crate::sigma_laws::{
    equality_checked, law_equality_holds, lemma_challenges_canonical, lemma_msm_same,
};
use crate::sumcheck::{leftovers, Comb};
use crate::sumcheck_accept_laws::{law_sumcheck_holds, Followed, sumcheck_checked, sumcheck_sized};
use crate::sums::{all_canonical, scaled_list, sum_scaled};
use crate::tables::column_table;
use crate::transcript::{challenges, History};
use crate::vectors::{dot, lemma_sum_canonical, pointwise, sum};
use vstd::prelude::*;

verus! {

/// What a verifier knows of blocks.
pub struct BlockStatement {
    /// The numbers of copies.
    pub copies: Seq<nat>,
    /// The largest number of copies.
    pub max: nat,
    /// The number of variables, and of inputs, of a copy.
    pub width: nat,
    /// The constraints.
    pub inst: R1CS,
    /// The generators.
    pub gens: R1CSGens,
    /// The commitments to the variables.
    pub vars: Seq<Seq<CompressedGroup>>,
    /// The commitments to the inputs.
    pub inputs: Seq<Seq<CompressedGroup>>,
}

/// What a verifier of a proof about blocks comes to.
#[verifier::ext_equal]
pub struct BlockChecked {
    /// Whether the proof holds.
    pub holds: bool,
    /// The coordinates of the instance.
    pub rp: Seq<Scalar>,
    /// The coordinates of the copy, last first.
    pub rq_rev: Seq<Scalar>,
    /// The coordinates of the row.
    pub rx: Seq<Scalar>,
    /// The coordinates of the column.
    pub ry: Seq<Scalar>,
    /// The transcript.
    pub th: History,
}

impl BlockStatement {
    /// The number of coordinates of the instance.
    pub open spec fn np(self) -> nat {
        log2_up(self.copies.len())
    }

    /// The number of coordinates of the copy.
    pub open spec fn nq(self) -> nat {
        log2_up(self.max)
    }

    /// The number of coordinates of the row.
    pub open spec fn nx(self) -> nat {
        log2_up(self.inst.num_cons)
    }

    /// The number of coordinates of the column.
    pub open spec fn ny(self) -> nat {
        log2_up(2 * self.width)
    }

    /// The number of coordinates of the copy that block `p` does not need.
    pub open spec fn unused(self, p: int) -> nat {
        (self.nq() - log2_up(self.copies[p])) as nat
    }

    /// What the values of the blocks count in their combination.
    pub open spec fn weights(self, rp: Seq<Scalar>, rq: Seq<Scalar>) -> Seq<Scalar> {
        Seq::new(
            self.copies.len(),
            |p: int| smul(eq_evals(rp)[p], damped(sone(), rq, self.unused(p))),
        )
    }

    /// Whether the openings of the first `k` blocks hold, and the transcript
    /// after them.
    pub open spec fn openings_checked(
        self,
        rq: Seq<Scalar>,
        ry: Seq<Scalar>,
        p: BlockView,
        th: History,
        k: nat,
    ) -> (bool, History)
        decreases k,
    {
        if k == 0 {
            (true, th)
        } else {
            let (held, th1) = self.openings_checked(rq, ry, p, th, (k - 1) as nat);
            let (holds, th2) = eval_verify(
                self.gens.gens_pc@,
                rq.skip(self.unused(k - 1) as int) + ry.skip(1),
                p.comm_list[k - 1],
                mixed_commitment(self.vars[k - 1], self.inputs[k - 1], ry[0]),
                p.evals[k - 1],
                th1,
            );
            (held && holds, th2)
        }
    }

    /// What a verifier finds of a proof about blocks.
    #[verifier::opaque]
    pub open spec fn checked(self, p: BlockView, th: History) -> BlockChecked {
        let (np, nq, nx, ny) = (self.np(), self.nq(), self.nx(), self.ny());
        let (g1, g4) = (self.gens.gens_sc.gens_1@, self.gens.gens_sc.gens_4@);
        let (tp, h1) = challenges(th, "challenge_tau_p"@, np);
        let (tq, h2) = challenges(h1, "challenge_tau_q"@, nq);
        let (tx, h3) = challenges(h2, "challenge_tau_x"@, nx);
        let zero = commitment(seq![szero()], szero(), g1);
        let f1 = sumcheck_checked(p.sc1, zero, g1, g4, 4, h3, nx + nq + np);
        let rx = f1.r.take(nx as int);
        let rq_rev = f1.r.subrange(nx as int, (nx + nq) as int);
        let rp1 = f1.r.skip((nx + nq) as int);
        let rq = rq_rev.reverse();
        let tau = smul(
            smul(evaluation(eq_evals(tp), rp1), evaluation(eq_evals(tq), rq_rev)),
            evaluation(eq_evals(tx), rx),
        );
        let mid = middle_checked(g1, tau, f1.claim, p.claims, f1.th);
        let f2 = sumcheck_checked(p.sc2, mid.claim, g1, g4, 4, mid.th, np + ny);
        let rp = f2.r.take(np as int);
        let ry = f2.r.skip(np as int);
        let n = self.copies.len();
        let (opened, h4) = self.openings_checked(rq, ry, p, f2.th, n);
        let (ep, ex, ey) = (eq_evals(rp), eq_evals(rx), eq_evals(ry));
        let matrices = sadd(
            sadd(
                smul(mid.ra, list_value(self.inst.a, ep, ex, ey)),
                smul(mid.rb, list_value(self.inst.b, ep, ex, ey)),
            ),
            smul(mid.rc, list_value(self.inst.c, ep, ex, ey)),
        );
        let factor = smul(matrices, evaluation(eq_evals(rp1), rp));
        let (met, h5) = equality_checked(g1, scaled(p.comm, factor), f2.claim, p.eq2, h4);
        let sized = sumcheck_sized(p.sc1, nx + nq + np) && sumcheck_sized(p.sc2, np + ny)
            && p.comm_list.len() == n && p.evals.len() == n;
        let combined = p.comm == msm(self.weights(rp, rq), p.comm_list);
        BlockChecked {
            holds: sized && f1.holds && mid.holds && f2.holds && opened && combined && met,
            rp,
            rq_rev,
            rx,
            ry,
            th: h5,
        }
    }
}

/// What a verifier knows of the blocks of a prover.
pub open spec fn block_statement(i: BlockInput) -> BlockStatement {
    let pc = i.gens.gens_pc@;
    BlockStatement {
        copies: i.vars.map_values(|v: Seq<Seq<Scalar>>| v.len()),
        max: i.max,
        width: i.width,
        inst: i.inst,
        gens: i.gens,
        vars: mat_commitments(i.vars, pc.0),
        inputs: mat_commitments(i.inputs, pc.0),
    }
}

/// Whether sum-checks and openings are about values under the same generator,
/// and blinds have a group element.
pub open spec fn gens_agree(g: R1CSGens) -> bool {
    &&& g.gens_pc@.1 == g.gens_sc.gens_1@
    &&& g.gens_sc.gens_1@.h.valid()
}

/// The multiple of a commitment to a value without a blind.
pub proof fn lemma_scaled_value(v: Scalar, f: Scalar, g: Gens)
    requires
        encodes_uniquely(),
        g.g.len() >= 1,
    ensures
        scaled(commitment(seq![v], szero(), g), f) == commitment(seq![smul(v, f)], szero(), g),
{
    let c = commitment(seq![v], szero(), g);
    let gl = g.g[0].log();
    lemma_plain_one(v, g);
    lemma_plain_one(smul(v, f), g);
    lemma_scaled_log(c, f);
    mul_comm(v, f);
    mul_assoc(f, v, gl);
    let d = seq![smul(v, f)].push(szero());
    let points = g.g.take(1).push(g.h);
    lemma_commitment_log(seq![smul(v, f)], szero(), g);
    lemma_msm(seq![f], seq![c]);
    lemma_msm(d, points);
    lemma_msm_same(seq![f], seq![c], d, points);
}

/// The logarithm of a commitment to a value without a blind.
proof fn lemma_plain_one(v: Scalar, g: Gens)
    requires
        encodes_uniquely(),
        g.g.len() >= 1,
    ensures
        commitment(seq![v], szero(), g).log() == smul(v, g.g[0].log()),
{
    lemma_commit_one_log(v, szero(), g);
    mul_zero(g.h.log());
    canonical_ops(v, g.g[0].log());
    neutral(smul(v, g.g[0].log()));
}

/// The combination of commitments to values without blinds is the commitment to
/// the combination.
proof fn lemma_combined_values(w: Seq<Scalar>, v: Seq<Scalar>, g: Gens)
    requires
        encodes_uniquely(),
        g.g.len() >= 1,
        w.len() == v.len(),
    ensures
        msm(w, v.map_values(|x: Scalar| commitment(seq![x], szero(), g))) == commitment(
            seq![dot(w, v)],
            szero(),
            g,
        ),
{
    let c = v.map_values(|x: Scalar| commitment(seq![x], szero(), g));
    let gl = g.g[0].log();
    assert forall|p: int| 0 <= p < w.len() implies pointwise(w, logs(c))[p] == scaled_list(
        gl,
        pointwise(w, v),
    )[p] by {
        lemma_plain_one(v[p], g);
        mul_assoc(w[p], v[p], gl);
        mul_comm(smul(w[p], v[p]), gl);
    }
    assert(pointwise(w, logs(c)) =~= scaled_list(gl, pointwise(w, v)));
    sum_scaled(gl, pointwise(w, v));
    let t = dot(w, v);
    mul_comm(gl, t);
    lemma_plain_one(t, g);
    let d = seq![t].push(szero());
    let points = g.g.take(1).push(g.h);
    lemma_commitment_log(seq![t], szero(), g);
    lemma_msm(w, c);
    lemma_msm(d, points);
    lemma_msm_same(w, c, d, points);
}

/// The commitment to the value of the blocks is the combination of those to
/// their values.
proof fn lemma_block_combined(
    i: BlockInput,
    rp: Seq<Scalar>,
    rq: Seq<Scalar>,
    ry: Seq<Scalar>,
)
    requires
        encodes_uniquely(),
        i.wf(),
        i.gens.gens_pc@.1.g.len() >= 1,
        rp.len() == i.np(),
        rq.len() == i.nq(),
        all_canonical(rq),
    ensures
        ({
            let g = i.gens.gens_pc@.1;
            let values = Seq::new(i.vars.len(), |p: int| i.opening(rq, ry, p).value);
            commitment(seq![evaluation(i.full_values(rq, ry), rp)], szero(), g) == msm(
                block_statement(i).weights(rp, rq),
                values.map_values(|x: Scalar| commitment(seq![x], szero(), g)),
            )
        }),
{
    i.lemma_sizes();
    lemma_constants();
    lemma_weights(rp);
    let s = block_statement(i);
    let values = Seq::new(i.vars.len(), |p: int| i.opening(rq, ry, p).value);
    let w = s.weights(rp, rq);
    let (e, full) = (eq_evals(rp), i.full_values(rq, ry));
    assert forall|p: int| 0 <= p < i.vars.len() implies pointwise(e, full)[p] == pointwise(
        w,
        values,
    )[p] by {
        i.lemma_opening(p);
        let o = i.opening(rq, ry, p);
        lemma_sum_canonical(pointwise(eq_evals(o.point), o.z));
        let k = s.unused(p);
        lemma_damped(o.value, rq, k);
        lemma_damped(sone(), rq, k);
        let head = rq.take(k as int);
        lemma_weights(head);
        vstd::arithmetic::power2::lemma_pow2_pos(k);
        let first = eq_evals(head)[0];
        assert(first.canonical());
        neutral(first);
        mul_comm(first, sone());
        mul_assoc(e[p], first, o.value);
    }
    assert(pointwise(e, full) =~= pointwise(w, values));
    lemma_combined_values(w, values, i.gens.gens_pc@.1);
}

/// Whether the opening of block `p` holds and takes a transcript to another.
spec fn opens(
    s: BlockStatement,
    rq: Seq<Scalar>,
    ry: Seq<Scalar>,
    v: BlockView,
    p: int,
    from: History,
    to: History,
) -> bool {
    eval_verify(
        s.gens.gens_pc@,
        rq.skip(s.unused(p) as int) + ry.skip(1),
        v.comm_list[p],
        mixed_commitment(s.vars[p], s.inputs[p], ry[0]),
        v.evals[p],
        from,
    ) == (true, to)
}

/// Openings that hold one after the other.
proof fn lemma_openings_chain(
    s: BlockStatement,
    rq: Seq<Scalar>,
    ry: Seq<Scalar>,
    v: BlockView,
    hs: Seq<History>,
    k: nat,
)
    requires
        k < hs.len(),
        forall|p: int| 0 <= p < k ==> #[trigger] opens(s, rq, ry, v, p, hs[p], hs[p + 1]),
    ensures
        s.openings_checked(rq, ry, v, hs[0], k) == (true, hs[k as int]),
    decreases k,
{
    if k > 0 {
        lemma_openings_chain(s, rq, ry, v, hs, (k - 1) as nat);
        assert(opens(s, rq, ry, v, k - 1, hs[k - 1], hs[k - 1 + 1]));
    }
}

/// What is opened of a block is what a verifier looks at.
proof fn lemma_opens(
    i: BlockInput,
    rq: Seq<Scalar>,
    ry: Seq<Scalar>,
    v: BlockView,
    p: int,
    from: History,
    to: History,
)
    requires
        0 <= p < i.vars.len(),
        log2_up(i.vars[p].len()) <= i.nq(),
        eval_verify(
            i.gens.gens_pc@,
            i.openings(rq, ry)[p].point,
            v.comm_list[p],
            mixed_commitment(
                mat_commitments(i.vars, i.gens.gens_pc@.0)[p],
                mat_commitments(i.inputs, i.gens.gens_pc@.0)[p],
                ry[0],
            ),
            v.evals[p],
            from,
        ) == (true, to),
    ensures
        opens(block_statement(i), rq, ry, v, p, from, to),
{
    let s = block_statement(i);
    assert(s.unused(p) == (i.nq() - log2_up(i.vars[p].len())) as nat);
}

/// The opening of a block in a proof holds.
proof fn lemma_block_opens(i: BlockInput, th: History, rh: History, p: int)
    requires
        encodes_uniquely(),
        i.wf(),
        block_openable(i),
        block_invertible(i, th, rh),
        0 <= p < i.vars.len(),
    ensures
        ({
            let out = i.prove(th, rh);
            let s2 = i.second_check(th, rh).0;
            let rq = out.rq_rev.reverse();
            let opened = i.openings(rq, out.ry);
            let pc = i.gens.gens_pc@;
            opens(
                block_statement(i),
                rq,
                out.ry,
                out.proof,
                p,
                open_all(pc, opened, s2.th, s2.rh, p as nat).1,
                open_all(pc, opened, s2.th, s2.rh, (p + 1) as nat).1,
            )
        }),
{
    law_block_openings_accepted(i, th, rh, p);
    let out = i.prove(th, rh);
    let s2 = i.second_check(th, rh).0;
    let rq = out.rq_rev.reverse();
    let opened = i.openings(rq, out.ry);
    let pc = i.gens.gens_pc@;
    i.lemma_opening(p);
    lemma_opens(
        i,
        rq,
        out.ry,
        out.proof,
        p,
        open_all(pc, opened, s2.th, s2.rh, p as nat).1,
        open_all(pc, opened, s2.th, s2.rh, (p + 1) as nat).1,
    );
}

/// The openings of the blocks in a proof hold.
proof fn lemma_block_openings(i: BlockInput, th: History, rh: History)
    requires
        encodes_uniquely(),
        i.wf(),
        block_openable(i),
        block_invertible(i, th, rh),
    ensures
        ({
            let out = i.prove(th, rh);
            let s2 = i.second_check(th, rh).0;
            let rq = out.rq_rev.reverse();
            let n = i.vars.len();
            block_statement(i).openings_checked(rq, out.ry, out.proof, s2.th, n) == (
                true,
                open_all(i.gens.gens_pc@, i.openings(rq, out.ry), s2.th, s2.rh, n).1,
            )
        }),
{
    let out = i.prove(th, rh);
    let s2 = i.second_check(th, rh).0;
    let rq = out.rq_rev.reverse();
    let n = i.vars.len();
    let s = block_statement(i);
    let opened = i.openings(rq, out.ry);
    let pc = i.gens.gens_pc@;
    let hs = Seq::new(n + 1, |p: int| open_all(pc, opened, s2.th, s2.rh, p as nat).1);
    assert forall|p: int| 0 <= p < n implies #[trigger] opens(
        s,
        rq,
        out.ry,
        out.proof,
        p,
        hs[p],
        hs[p + 1],
    ) by {
        lemma_block_opens(i, th, rh, p);
    }
    lemma_openings_chain(s, rq, out.ry, out.proof, hs, n);
}

/// What a verifier computes of the weights of the first sum-check is what its
/// first table comes to.
proof fn lemma_block_weights(i: BlockInput, th: History, r: Seq<Scalar>)
    requires
        i.wf(),
        r.len() == i.nx() + i.nq() + i.np(),
    ensures
        ({
            let (tp, h1) = challenges(th, "challenge_tau_p"@, i.np());
            let (tq, h2) = challenges(h1, "challenge_tau_q"@, i.nq());
            let (tx, h3) = challenges(h2, "challenge_tau_x"@, i.nx());
            evaluation(i.first_tables(th)[0], r) == smul(
                smul(
                    evaluation(eq_evals(tp), r.skip((i.nx() + i.nq()) as int)),
                    evaluation(eq_evals(tq), i.copy_part(r)),
                ),
                evaluation(eq_evals(tx), r.take(i.nx() as int)),
            )
        }),
{
    let (tp, h1) = challenges(th, "challenge_tau_p"@, i.np());
    let (tq, h2) = challenges(h1, "challenge_tau_q"@, i.nq());
    let (tx, h3) = challenges(h2, "challenge_tau_x"@, i.nx());
    lemma_challenges_canonical(th, "challenge_tau_p"@, i.np());
    lemma_challenges_canonical(h1, "challenge_tau_q"@, i.nq());
    lemma_challenges_canonical(h2, "challenge_tau_x"@, i.nx());
    lemma_weights(tp);
    lemma_weights(tq);
    lemma_weights(tx);
    let (rx, rq, rp) = (
        r.take(i.nx() as int),
        i.copy_part(r),
        r.skip((i.nx() + i.nq()) as int),
    );
    law_factors_value(eq_evals(tp), eq_evals(tq), eq_evals(tx), rp, rq, rx);
    assert(rx + (rq + rp) =~= r);
}

/// What a verifier computes of the matrices and of the weights of the instances
/// is what the last two tables of the second sum-check come to.
proof fn lemma_block_public(
    i: BlockInput,
    r: Seq<Scalar>,
    ra: Scalar,
    rb: Scalar,
    rc: Scalar,
    rp: Seq<Scalar>,
    ry: Seq<Scalar>,
)
    requires
        i.wf(),
        r.len() == i.nx() + i.nq() + i.np(),
        rp.len() == i.np(),
        ry.len() == i.ny(),
        all_canonical(ry),
    ensures
        ({
            let rx = r.take(i.nx() as int);
            let rp1 = r.skip((i.nx() + i.nq()) as int);
            let t = i.second_tables(r, ra, rb, rc);
            let (ep, ex, ey) = (eq_evals(rp), eq_evals(rx), eq_evals(ry));
            &&& evaluation(t[1], rp + ry) == sadd(
                sadd(
                    smul(ra, list_value(i.inst.a, ep, ex, ey)),
                    smul(rb, list_value(i.inst.b, ep, ex, ey)),
                ),
                smul(rc, list_value(i.inst.c, ep, ex, ey)),
            )
            &&& evaluation(t[2], rp + ry) == evaluation(eq_evals(rp1), rp)
        }),
{
    i.lemma_sizes();
    let rx = r.take(i.nx() as int);
    let rp1 = r.skip((i.nx() + i.nq()) as int);
    let ex = eq_evals(rx);
    lemma_weights(rx);
    lemma_weights(rp1);
    lemma_weights(rp + ry);
    vstd::arithmetic::power2::lemma_pow2_adds(rp.len(), ry.len());
    law_matrices_value(i.inst.a, ex, rp, ry);
    law_matrices_value(i.inst.b, ex, rp, ry);
    law_matrices_value(i.inst.c, ex, rp, ry);
    let z_len = 2 * i.width;
    lemma_dot_weighted(
        eq_evals(rp + ry),
        ra,
        rb,
        rc,
        column_table(i.inst.a, ex, z_len),
        column_table(i.inst.b, ex, z_len),
        column_table(i.inst.c, ex, z_len),
    );
    law_stretched_value(eq_evals(rp1), rp, ry);
}

/// The first sum-check over satisfied blocks, and the step after it, hold.
proof fn lemma_block_first(i: BlockInput, th: History, rh: History)
    requires
        encodes_uniquely(),
        i.wf(),
        block_canonical(i),
        block_satisfied(i),
        gens_agree(i.gens),
    ensures
        ({
            let (g1, g4) = (i.gens.gens_sc.gens_1@, i.gens.gens_sc.gens_4@);
            let n = i.nx() + i.nq() + i.np();
            let (s1, t1) = i.first_check(th, rh);
            let m = i.middle(th, rh);
            let zero = commitment(seq![szero()], szero(), g1);
            let tau = leftovers(t1)[0];
            &&& sumcheck_sized(s1.messages(), n)
            &&& s1.r.len() == n
            &&& all_canonical(s1.r)
            &&& sumcheck_checked(s1.messages(), zero, g1, g4, 4, block_taus(i, th).3, n) == (
            Followed { holds: true, claim: s1.comm_claim, r: s1.r, th: s1.th })
            &&& tau == evaluation(i.first_tables(th)[0], s1.r)
            &&& middle_checked(g1, tau, s1.comm_claim, m.claims, s1.th) == (Joint {
                holds: true,
                ra: m.ra,
                rb: m.rb,
                rc: m.rc,
                claim: commitment(seq![m.claim], m.blind, g1),
                th: m.th,
            })
            &&& m.claim.canonical()
            &&& m.blind.canonical()
        }),
{
    lemma_constants();
    let (g1, g4) = (i.gens.gens_sc.gens_1@, i.gens.gens_sc.gens_4@);
    let n = i.nx() + i.nq() + i.np();
    let t = i.first_tables(th);
    let h = block_taus(i, th).3;
    law_block_first_claim(i, th);
    law_leftovers(szero(), szero(), n, t, Comb::Additive, g1, g4, h, rh);
    law_sumcheck_holds(szero(), szero(), n, t, Comb::Additive, g1, g4, h, rh);
    law_block_claims(i, th, rh);
    let (s1, t1) = i.first_check(th, rh);
    let l = leftovers(t1);
    assert(l == t.map_values(|x: Seq<Scalar>| evaluation(x, s1.r)));
    let e = eq_evals(s1.r);
    lemma_sum_canonical(pointwise(e, t[0]));
    lemma_sum_canonical(pointwise(e, t[1]));
    lemma_sum_canonical(pointwise(e, t[2]));
    lemma_sum_canonical(pointwise(e, t[3]));
    law_middle_holds(g1, l[0], l[1], l[2], l[3], s1.blind, s1.th, s1.rh);
}

/// The second sum-check over satisfied blocks holds, and ends in the value that
/// is opened times what a verifier computes.
proof fn lemma_block_second(i: BlockInput, th: History, rh: History)
    requires
        encodes_uniquely(),
        i.wf(),
        block_canonical(i),
        block_satisfied(i),
        gens_agree(i.gens),
    ensures
        ({
            let (g1, g4) = (i.gens.gens_sc.gens_1@, i.gens.gens_sc.gens_4@);
            let n = i.np() + i.ny();
            let s1 = i.first_check(th, rh).0;
            let m = i.middle(th, rh);
            let (s2, t2) = i.second_check(th, rh);
            let joint = commitment(seq![m.claim], m.blind, g1);
            let l = leftovers(t2);
            let u = i.second_tables(s1.r, m.ra, m.rb, m.rc);
            &&& sumcheck_sized(s2.messages(), n)
            &&& s2.r.len() == n
            &&& all_canonical(s2.r)
            &&& sumcheck_checked(s2.messages(), joint, g1, g4, 4, m.th, n) == (Followed {
                holds: true,
                claim: s2.comm_claim,
                r: s2.r,
                th: s2.th,
            })
            &&& s2.comm_claim == commitment(seq![smul(smul(l[0], l[1]), l[2])], s2.blind, g1)
            &&& s2.blind.canonical()
            &&& l[1] == evaluation(u[1], s2.r)
            &&& l[2] == evaluation(u[2], s2.r)
        }),
{
    lemma_block_first(i, th, rh);
    law_block_claims(i, th, rh);
    let (g1, g4) = (i.gens.gens_sc.gens_1@, i.gens.gens_sc.gens_4@);
    let n = i.np() + i.ny();
    let s1 = i.first_check(th, rh).0;
    let m = i.middle(th, rh);
    let u = i.second_tables(s1.r, m.ra, m.rb, m.rc);
    law_block_second_claim(i, s1.r, m.ra, m.rb, m.rc);
    law_leftovers(m.claim, m.blind, n, u, Comb::Cubic, g1, g4, m.th, m.rh);
    law_sumcheck_holds(m.claim, m.blind, n, u, Comb::Cubic, g1, g4, m.th, m.rh);
    let (s2, t2) = i.second_check(th, rh);
    assert(leftovers(t2) == u.map_values(|x: Seq<Scalar>| evaluation(x, s2.r)));
}

/// A proof about blocks that satisfy their constraints is accepted, and leaves
/// prover and verifier with the same coordinates and the same transcript,
/// wherever the challenges of the openings have inverses.
pub proof fn law_block_accepted(i: BlockInput, th: History, rh: History)
    requires
        encodes_uniquely(),
        i.wf(),
        block_canonical(i),
        block_satisfied(i),
        block_openable(i),
        gens_agree(i.gens),
        block_invertible(i, th, rh),
    ensures
        ({
            let out = i.prove(th, rh);
            block_statement(i).checked(out.proof, th) == (BlockChecked {
                holds: true,
                rp: out.rp,
                rq_rev: out.rq_rev,
                rx: out.rx,
                ry: out.ry,
                th: out.th,
            })
        }),
{
    i.lemma_sizes();
    lemma_block_first(i, th, rh);
    lemma_block_second(i, th, rh);
    let s = block_statement(i);
    let (s1, t1) = i.first_check(th, rh);
    let m = i.middle(th, rh);
    let (s2, t2) = i.second_check(th, rh);
    let l = leftovers(t2);
    let rq = i.copy_part(s1.r).reverse();
    let rp = s2.r.take(i.np() as int);
    let ry = s2.r.skip(i.np() as int);
    assert forall|j: int| 0 <= j < rq.len() implies (#[trigger] rq[j]).canonical() by {
        assert(s1.r[i.nx() + (rq.len() - 1 - j)].canonical());
    }
    assert forall|j: int| 0 <= j < ry.len() implies (#[trigger] ry[j]).canonical() by {
        assert(s2.r[i.np() + j].canonical());
    }
    lemma_block_weights(i, th, s1.r);
    lemma_block_public(i, s1.r, m.ra, m.rb, m.rc, rp, ry);
    assert(rp + ry =~= s2.r);
    lemma_block_combined(i, rp, rq, ry);
    let value = evaluation(i.full_values(rq, ry), rp);
    assert(l[0] == value) by {
        law_block_claims(i, th, rh);
    }
    let g1 = i.gens.gens_sc.gens_1@;
    let factor = smul(l[1], l[2]);
    lemma_scaled_value(value, factor, g1);
    mul_assoc(l[0], l[1], l[2]);
    let opened = i.openings(rq, ry);
    let n = i.vars.len();
    let (ps, h2, rh2) = open_all(i.gens.gens_pc@, opened, s2.th, s2.rh, n);
    lemma_constants();
    law_equality_holds(g1, smul(value, factor), szero(), s2.blind, h2, rh2);
    lemma_block_openings(i, th, rh);
    reveal(BlockInput::prove);
    reveal(BlockStatement::checked);
    lemma_open_all(i.gens.gens_pc@, opened, s2.th, s2.rh, 0, n);
    let values = Seq::new(n, |p: int| i.opening(rq, ry, p).value);
    let g = i.gens.gens_pc@.1;
    assert(opened.map_values(|o: Opening| commitment(seq![o.value], szero(), g))
        =~= values.map_values(|x: Scalar| commitment(seq![x], szero(), g)));
}

} // verus!
