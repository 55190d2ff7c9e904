//! What it means that a proof of a program is accepted, and what the values in
//! it are.
use crate::claim_laws::shown;
use crate::commitments::Gens;
use crate::dense_mlpoly::eq_evals;
use crate::encoding_laws::{law_reads_evaluate, reads_value};
use crate::errors::ProofVerifyError;
use crate::group::CompressedGroup;
use crate::io_proofs::proofs;
use crate::jobs::{Challenges, EvalCheck, EvalJob, SatCheck, SatJob};
use crate::math::log2_up;
use crate::nizk::DotLog;
use crate::openings::{check_all, Claim};
use crate::parts::{part_proved, PartProof, PartTrace};
use crate::poly_eval::plain_verify;
use crate::r1csinstance::R1CS;
use crate::random::RandomTape;
use crate::scalar::{order, sone, szero, Scalar};
use crate::section_laws::protocol_commitments;
use crate::snark::{snark_accepted, SNARK};
use crate::snark_verify::{
    balanced, mid_claims, part_checked, CheckTrace, PublicProgram, VerifierInput,
};
use crate::sparse_mlpoly::{instance_decommitment, ops_len};
use crate::statement::{ProverInput, NUM_PARTS};
use crate::sums::all_canonical;
use crate::transcript::{challenge, drawn, history, History};
use crate::weight_laws::{law_product_integer, multiplied};
use merlin::Transcript;
use vstd::arithmetic::power2::pow2;
use vstd::prelude::*;

verus! {

/// Whether a proof shows a value at a point of a committed polynomial, from some
/// transcript.
pub open spec fn point_shown(
    gens: (Gens, Gens),
    comm: Seq<CompressedGroup>,
    point: Seq<Scalar>,
    value: Scalar,
    p: DotLog,
) -> bool {
    exists|th: History| #[trigger] plain_verify(gens, point, value, comm, p, th).0
}

/// Whether a point has `n` coordinates, of which the last `ones` are one and the
/// others zero.
pub open spec fn is_corner(point: Seq<Scalar>, n: nat, ones: nat) -> bool {
    &&& point.len() == n
    &&& forall|j: int|
        0 <= j < n ==> #[trigger] point[j] == if j < n - ones {
            szero()
        } else {
            sone()
        }
}

/// Whether a value is shown at the position of a committed list whose last
/// `ones` binary digits are one and the others zero.
pub open spec fn corner_shown(
    gens: (Gens, Gens),
    comm: Seq<CompressedGroup>,
    n: nat,
    ones: nat,
    value: Scalar,
    p: DotLog,
) -> bool {
    exists|point: Seq<Scalar>|
        is_corner(point, n, ones) && #[trigger] point_shown(gens, comm, point, value, p)
}

/// Claims that are accepted are shown one by one.
proof fn lemma_each_shown(
    gens: (Gens, Gens),
    claims: Seq<Claim>,
    ps: Seq<DotLog>,
    th: History,
    k: nat,
    j: int,
)
    requires
        check_all(gens, claims, ps, th, k).0,
        0 <= j < k,
    ensures
        point_shown(gens, claims[j].comm, claims[j].point, claims[j].value, ps[j]),
    decreases k,
{
    let (held, th1) = check_all(gens, claims, ps, th, (k - 1) as nat);
    if j < k - 1 {
        lemma_each_shown(gens, claims, ps, th, (k - 1) as nat, j);
    } else {
        let c = claims[j];
        assert(plain_verify(gens, c.point, c.value, c.comm, ps[j], th1).0);
    }
}

/// The public side of the constraints of a part of the protocol.
pub open spec fn protocol_program<'a>(v: VerifierInput<'a>, s: int) -> PublicProgram<'a> {
    if s == 0 {
        v.block
    } else if s == 1 {
        v.consis_comb
    } else if s == 2 {
        v.consis_check
    } else if s == 3 {
        v.perm_prelim
    } else if s == 4 || s == 6 {
        v.perm_root
    } else if s == 7 {
        v.perm_exec_poly
    } else if s == 8 {
        v.mem_extract
    } else {
        v.perm_block_poly
    }
}

/// Whether the check of satisfiability accepted a part, asked about the
/// commitments that the protocol names and the number of its constraints.
pub open spec fn part_satisfied<
    P,
    E,
    F: Fn(SatCheck<'_>, &P, Transcript) -> (Result<Challenges, ProofVerifyError>, Transcript),
>(
    v: VerifierInput<'_>,
    sat: F,
    s: int,
    tr: CheckTrace,
    proof: SNARK<P, E>,
) -> bool {
    let part = proof.part_proofs()[s];
    exists|job: SatCheck<'_>|
        job.task() == v.task(proof.comms(), s, part.evals) && job.task().comms
            == protocol_commitments(proof.comms(), s) && job.num_secs == job.comms@.len()
            && job.evals == part.evals && job.num_cons == protocol_program(
            v,
            s,
        ).num_cons && job.num_vars == v.num_vars && #[trigger] call_ensures(
            sat,
            (job, &part.sat, tr.before),
            (Ok(tr.ch), tr.after_sat),
        )
}

/// Whether the check of the values of matrices accepted a part, asked about the
/// commitment to the constraints that the protocol names, at the point that the
/// check of satisfiability left, behind the three values.
pub open spec fn part_evaluated<
    P,
    E,
    H: Fn(EvalCheck<'_>, &E, Transcript) -> (Result<(), ProofVerifyError>, Transcript),
>(
    v: VerifierInput<'_>,
    eval: H,
    s: int,
    tr: CheckTrace,
    proof: SNARK<P, E>,
) -> bool {
    let part = proof.part_proofs()[s];
    let h = history(tr.mid);
    exists|job: EvalCheck<'_>, t: Transcript|
        (*job.comm)@ == protocol_program(v, s).comm@ && *job.gens == protocol_program(
            v,
            s,
        ).gens.gens_r1cs_eval && job.rx@ == (if s == 0 || s == 3 || s == 8 {
            tr.ch.rp@ + tr.ch.rx@
        } else {
            tr.ch.rx@
        }) && job.ry@ == tr.ch.ry@ && job.evals == part.evals && history(t) == h.push(
            (true, "Ar_claim"@, part.evals.0.encoding()),
        ).push((true, "Br_claim"@, part.evals.1.encoding())).push(
            (true, "Cr_claim"@, part.evals.2.encoding()),
        ) && #[trigger] call_ensures(eval, (job, &part.eval, t), (Ok(()), tr.after_eval))
}

/// In a proof that is accepted each part was accepted by both checks, asked
/// about what the protocol says, one part after the other.
pub proof fn law_accepted_parts<
    P,
    E,
    F: Fn(SatCheck<'_>, &P, Transcript) -> (Result<Challenges, ProofVerifyError>, Transcript),
    H: Fn(EvalCheck<'_>, &E, Transcript) -> (Result<(), ProofVerifyError>, Transcript),
>(
    v: VerifierInput<'_>,
    h: History,
    sat: F,
    eval: H,
    trace: Seq<CheckTrace>,
    proof: SNARK<P, E>,
    after: History,
    s: int,
)
    requires
        snark_accepted(v, h, sat, eval, trace, proof, after),
        0 <= s < 10,
    ensures
        trace.len() == 10,
        s == 0 ==> history(trace[0].before) == v.said_witnesses(h, proof.comms()),
        s > 0 ==> trace[s].before == trace[s - 1].after,
        part_satisfied(v, sat, s, trace[s], proof),
        part_evaluated(v, eval, s, trace[s], proof),
{
    reveal(part_checked);
    let c = proof.comms();
    let part = proof.part_proofs()[s];
    let tr = trace[s];
    assert(part_checked(v, c, v.tau(h, c), v.r(h, c), sat, eval, s, tr, proof.part_proofs(), 5));
    crate::section_laws::lemma_public_program(v, s);
    lemma_part_satisfied(v, sat, s, tr, proof);
    lemma_part_evaluated(v, eval, s, tr, proof);
}

proof fn lemma_part_satisfied<
    P,
    E,
    F: Fn(SatCheck<'_>, &P, Transcript) -> (Result<Challenges, ProofVerifyError>, Transcript),
>(
    v: VerifierInput<'_>,
    sat: F,
    s: int,
    tr: CheckTrace,
    proof: SNARK<P, E>,
)
    requires
        0 <= s < 10,
        crate::snark_verify::sat_asked(
            sat,
            v.task(proof.comms(), s, proof.part_proofs()[s].evals),
            proof.part_proofs()[s].sat,
            tr.before,
            (Ok(tr.ch), tr.after_sat),
        ),
        v.program(s) == protocol_program(v, s),
    ensures
        part_satisfied(v, sat, s, tr, proof),
{
    let part = proof.part_proofs()[s];
    let task = v.task(proof.comms(), s, part.evals);
    let reply: (Result<Challenges, ProofVerifyError>, Transcript) = (Ok(tr.ch), tr.after_sat);
    let job = choose|job: SatCheck<'_>|
        job.task() == task && job.num_secs == job.comms@.len() && #[trigger] call_ensures(
            sat,
            (job, &part.sat, tr.before),
            reply,
        );
    assert(task.comms =~= protocol_commitments(proof.comms(), s));
    assert(job.task().num_cons == task.num_cons);
    assert(job.task().num_vars == task.num_vars);
    assert(job.task().evals == task.evals);
}

proof fn lemma_part_evaluated<
    P,
    E,
    H: Fn(EvalCheck<'_>, &E, Transcript) -> (Result<(), ProofVerifyError>, Transcript),
>(
    v: VerifierInput<'_>,
    eval: H,
    s: int,
    tr: CheckTrace,
    proof: SNARK<P, E>,
)
    requires
        0 <= s < 10,
        crate::snark_verify::eval_asked(
            eval,
            v.program(s).comm.kept(),
            v.program(s).gens.gens_r1cs_eval,
            crate::parts::part_rp(s, tr.ch) + tr.ch.rx@,
            tr.ch.ry@,
            proof.part_proofs()[s].evals,
            proof.part_proofs()[s].eval,
            tr.mid,
            (Ok(()), tr.after_eval),
        ),
        v.program(s) == protocol_program(v, s),
    ensures
        part_evaluated(v, eval, s, tr, proof),
{
    let part = proof.part_proofs()[s];
    let prog = v.program(s);
    let rx = crate::parts::part_rp(s, tr.ch) + tr.ch.rx@;
    crate::instance::lemma_kept_commitment(*prog.comm);
    let reply: (Result<(), ProofVerifyError>, Transcript) = (Ok(()), tr.after_eval);
    let (job, t) = choose|job: EvalCheck<'_>, t: Transcript|
        *job.comm == prog.comm.kept() && *job.gens == prog.gens.gens_r1cs_eval && job.rx@ == rx
            && job.ry@ == tr.ch.ry@ && job.evals == part.evals && history(t)
            == crate::parts::said_claims(history(tr.mid), part.evals) && #[trigger] call_ensures(
            eval,
            (job, &part.eval, t),
            reply,
        );
    assert(rx =~= if s == 0 || s == 3 || s == 8 {
        tr.ch.rp@ + tr.ch.rx@
    } else {
        tr.ch.rx@
    });
}

/// In a proof that is accepted the first two values of the committed shared
/// witness are shown to be the two challenges, which are drawn behind the
/// commitments to all assignments.
pub proof fn law_accepted_challenges<
    P,
    E,
    F: Fn(SatCheck<'_>, &P, Transcript) -> (Result<Challenges, ProofVerifyError>, Transcript),
    H: Fn(EvalCheck<'_>, &E, Transcript) -> (Result<(), ProofVerifyError>, Transcript),
>(
    v: VerifierInput<'_>,
    h: History,
    sat: F,
    eval: H,
    trace: Seq<CheckTrace>,
    proof: SNARK<P, E>,
    after: History,
)
    requires
        snark_accepted(v, h, sat, eval, trace, proof, after),
        trace[3].ch.ry@.len() >= 1,
    ensures
        ({
            let c = proof.comms();
            let a = v.said_assignments(h, c);
            let tau = challenge(a, "challenge_tau"@);
            let r = challenge(drawn(a, "challenge_tau"@), "challenge_r"@);
            let ps = proofs(proof.part_proofs()[3].openings@);
            let n = trace[3].ch.ry@.len();
            &&& corner_shown(v.vars_gens.gens_pc@, c.perm_w0[0], n, 0, tau, ps[0])
            &&& corner_shown(v.vars_gens.gens_pc@, c.perm_w0[0], n, 1, r, ps[1])
        }),
{
    reveal(part_checked);
    let c = proof.comms();
    let (tau, r) = (v.tau(h, c), v.r(h, c));
    let tr = trace[3];
    let n = tr.ch.ry@.len();
    assert(part_checked(v, c, tau, r, sat, eval, 3, tr, proof.part_proofs(), 5));
    let mids = mid_claims(c, tau, r, 3, n);
    let ps = proofs(proof.part_proofs()[3].openings@);
    let gens = v.vars_gens.gens_pc@;
    lemma_each_shown(gens, mids, ps, history(tr.after_sat), 2, 0);
    lemma_each_shown(gens, mids, ps, history(tr.after_sat), 2, 1);
    assert(is_corner(mids[0].point, n, 0));
    assert(is_corner(mids[1].point, n, 1));
}

/// In a proof that is accepted each product is shown to be the fourth value of
/// the committed accumulator of its block, or of the execution, and the product
/// of those of the blocks is that of the execution.
pub proof fn law_accepted_products<
    P,
    E,
    F: Fn(SatCheck<'_>, &P, Transcript) -> (Result<Challenges, ProofVerifyError>, Transcript),
    H: Fn(EvalCheck<'_>, &E, Transcript) -> (Result<(), ProofVerifyError>, Transcript),
>(
    v: VerifierInput<'_>,
    h: History,
    sat: F,
    eval: H,
    trace: Seq<CheckTrace>,
    proof: SNARK<P, E>,
    after: History,
    p: int,
)
    requires
        v.wf(),
        snark_accepted(v, h, sat, eval, trace, proof, after),
        0 <= p < v.block_num_instances,
        proof.part_proofs()[5].values@.len() >= v.block_num_instances,
        all_canonical(proof.part_proofs()[5].values@),
    ensures
        ({
            let c = proof.comms();
            let parts = proof.part_proofs();
            let n = log2_up((v.block_num_proofs@[p] * v.num_vars) as nat);
            let m = log2_up((v.consis_num_proofs * v.num_vars) as nat);
            let (blocks, whole) = (
                v.proofs_times_vars_gens.gens_pc@,
                v.total_proofs_times_vars_gens.gens_pc@,
            );
            &&& corner_shown(
                blocks,
                c.perm_block_w3[p],
                n,
                2,
                parts[5].values@[p],
                proofs(parts[5].openings@)[p],
            )
            &&& corner_shown(
                whole,
                c.perm_exec_w3[0],
                m,
                2,
                parts[7].values@[0],
                proofs(parts[7].openings@)[0],
            )
            &&& corner_shown(
                blocks,
                c.mem_block_w1[p],
                n,
                2,
                parts[9].values@[p],
                proofs(parts[9].openings@)[p],
            )
            &&& parts[7].values@[0]@ == multiplied(
                parts[5].values@.take(v.block_num_instances as int),
            ) % (order() as int)
        }),
{
    reveal(part_checked);
    let c = proof.comms();
    let (tau, r) = (v.tau(h, c), v.r(h, c));
    let parts = proof.part_proofs();
    assert(part_checked(v, c, tau, r, sat, eval, 5, trace[5], parts, 5));
    assert(part_checked(v, c, tau, r, sat, eval, 7, trace[7], parts, 5));
    assert(part_checked(v, c, tau, r, sat, eval, 9, trace[9], parts, 5));
    assert(v.rows_fit(v.block_num_proofs@[p] as nat, *v.proofs_times_vars_gens));
    lemma_post_shown(v, c, 5, parts[5], trace[5], p);
    lemma_post_shown(v, c, 7, parts[7], trace[7], 0);
    lemma_post_shown(v, c, 9, parts[9], trace[9], p);
    let front = parts[5].values@.take(v.block_num_instances as int);
    assert forall|i: int| 0 <= i < front.len() implies (#[trigger] front[i]).canonical() by {
        assert(parts[5].values@[i].canonical());
    }
    law_product_integer(front);
    assert(balanced(v, parts));
}

proof fn lemma_post_shown<P, E>(
    v: VerifierInput<'_>,
    c: crate::comms::WitnessComms,
    s: int,
    part: PartProof<P, E>,
    tr: CheckTrace,
    p: int,
)
    requires
        s == 5 || s == 7 || s == 9,
        0 <= p < v.product_count(s),
        v.product_vars(s, p) >= 2,
        check_all(
            v.product_gens(s).gens_pc@,
            v.post_claims(c, s, part.values@),
            proofs(part.openings@),
            history(tr.after_eval),
            v.post_claims(c, s, part.values@).len(),
        ).0,
    ensures
        corner_shown(
            v.product_gens(s).gens_pc@,
            if s == 5 {
                c.perm_block_w3[p]
            } else if s == 7 {
                c.perm_exec_w3[p]
            } else {
                c.mem_block_w1[p]
            },
            v.product_vars(s, p),
            2,
            part.values@[p],
            proofs(part.openings@)[p],
        ),
{
    let posts = v.post_claims(c, s, part.values@);
    lemma_each_shown(
        v.product_gens(s).gens_pc@,
        posts,
        proofs(part.openings@),
        history(tr.after_eval),
        posts.len(),
        p,
    );
    assert(is_corner(posts[p].point, v.product_vars(s, p), 2));
}

/// In a proof that is accepted the inputs and the outputs, the numbers of the
/// first and of the last block and that both are valid are shown of the
/// committed execution, at their positions.
pub proof fn law_accepted_input_and_output<
    P,
    E,
    F: Fn(SatCheck<'_>, &P, Transcript) -> (Result<Challenges, ProofVerifyError>, Transcript),
    H: Fn(EvalCheck<'_>, &E, Transcript) -> (Result<(), ProofVerifyError>, Transcript),
>(
    v: VerifierInput<'_>,
    h: History,
    sat: F,
    eval: H,
    trace: Seq<CheckTrace>,
    proof: SNARK<P, E>,
    after: History,
    i: int,
)
    requires
        v.wf(),
        snark_accepted(v, h, sat, eval, trace, proof, after),
        0 <= i < v.input_output_cutoff - 2,
    ensures
        ({
            let gens = v.vars_gens.gens_pc@;
            let comm = proof.comms().exec_inputs[0];
            let len = log2_up((v.consis_num_proofs * v.num_vars) as nat);
            let last = v.output_block_index * v.num_vars;
            let cutoff = v.input_output_cutoff as int;
            let io = proof.io();
            let (x, y) = (
                Scalar::of(crate::scalar::le_value(v.input@[i]@)),
                Scalar::of(crate::scalar::le_value(v.output@[i]@)),
            );
            &&& shown(gens, comm, len, 0, sone(), io.input_valid)
            &&& shown(gens, comm, len, 1, Scalar::of(v.input_block_num as nat), io.input_block_num)
            &&& shown(gens, comm, len, 2 + i, x, io.inputs[i])
            &&& shown(gens, comm, len, last, sone(), io.output_valid)
            &&& shown(
                gens,
                comm,
                len,
                last + cutoff + 1,
                Scalar::of(v.output_block_num as nat),
                io.output_block_num,
            )
            &&& shown(gens, comm, len, last + cutoff + 2 + i, y, io.outputs[i])
        }),
{
    let claim = v.io_claim();
    crate::claim_laws::law_claims_shown(
        v.vars_gens.gens_pc@,
        proof.comms().exec_inputs[0],
        log2_up((v.consis_num_proofs * v.num_vars) as nat),
        claim,
        proof.io(),
        history(trace[NUM_PARTS - 1].after),
    );
    assert(claim.input[i] == Scalar::of(crate::scalar::le_value(v.input@[i]@)));
    assert(claim.output[i] == Scalar::of(crate::scalar::le_value(v.output@[i]@)));
}

/// The values that a prover claims of the matrices of a part are those of what
/// opens the commitment to them, at the point that the step for their values is
/// handed.
pub proof fn law_claimed_values<
    P,
    E,
    F: Fn(SatJob<'_>, Transcript, RandomTape) -> (P, Challenges, Transcript, RandomTape),
    H: Fn(EvalJob<'_>, Transcript, RandomTape) -> (E, Transcript, RandomTape),
>(
    inp: ProverInput<'_>,
    tau: Scalar,
    r: Scalar,
    sat: F,
    eval: H,
    s: int,
    tr: PartTrace,
    part: PartProof<P, E>,
    i: R1CS,
)
    requires
        0 <= s < 10,
        part_proved(inp, tau, r, sat, eval, s, tr, part),
        i == inp.program(s).inst@,
        i.in_range(),
        i.num_instances * i.num_cons <= usize::MAX,
        i.num_cons == pow2(tr.ch.rx@.len()),
        if s == 0 || s == 3 || s == 8 {
            i.num_instances == pow2(tr.ch.rp@.len())
        } else {
            i.a.len() <= 1
        },
    ensures
        ({
            let d = instance_decommitment(i);
            let n = ops_len(i);
            let ex = eq_evals(
                if s == 0 || s == 3 || s == 8 {
                    tr.ch.rp@ + tr.ch.rx@
                } else {
                    tr.ch.rx@
                },
            );
            let ey = eq_evals(tr.ch.ry@);
            &&& part.evals.0 == reads_value(d.row.ops, d.col.ops, d.val, 0, n, ex, ey)
            &&& part.evals.1 == reads_value(d.row.ops, d.col.ops, d.val, n as int, n, ex, ey)
            &&& part.evals.2 == reads_value(d.row.ops, d.col.ops, d.val, (2 * n) as int, n, ex, ey)
        }),
{
    vstd::arithmetic::power2::lemma2_to64();
    let rp = crate::parts::part_rp(s, tr.ch);
    let (rx, ry) = (tr.ch.rx@, tr.ch.ry@);
    law_reads_evaluate(i, 0, rp, rx, ry);
    law_reads_evaluate(i, 1, rp, rx, ry);
    law_reads_evaluate(i, 2, rp, rx, ry);
    assert(rp + rx =~= if s == 0 || s == 3 || s == 8 {
        tr.ch.rp@ + tr.ch.rx@
    } else {
        tr.ch.rx@
    });
    assert(0 * ops_len(i) == 0 && 1 * ops_len(i) == ops_len(i));
}

} // verus!
