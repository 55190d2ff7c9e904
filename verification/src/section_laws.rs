//! What the parts of a program are about: each is checked against the
//! commitments to what it was proved for.
use crate::commitments::Gens;
use crate::committed::mat_commitments;
use crate::comms::{witness_comms, WitnessComms};
use crate::errors::ProofVerifyError;
use crate::group::encodes_uniquely;
use crate::instance::lemma_kept_commitment;
use crate::jobs::{Challenges, CheckTask, EvalCheck, EvalJob, SatCheck, SatJob, SatTask};
use crate::math::log2_up;
use crate::parts::{part_rp, sat_sound, PartProof, PartTrace};
use crate::random::RandomTape;
use crate::scalar::Scalar;
use crate::snark::{snark_accepted, snark_proved, snark_refused, snark_shaped, SNARK};
use crate::snark_laws::{
    eval_accepts, executed_honestly, gens_agree, law_honest_proof_accepted, matches_input,
    part_invertible, sat_accepts, steps_accepted,
};
use crate::snark_verify::{CheckTrace, VerifierInput};
use crate::sparse_mlpoly::{InstanceCommitment, R1CSCommitment, R1CSCommitmentGens};
use crate::statement::{post_openings, product_values, ProverInput, WitnessMats, NUM_PARTS};
use crate::transcript::{history, History};
use crate::vectors::flat;
use merlin::Transcript;
use vstd::prelude::*;

verus! {

/// What a check of satisfiability has to be asked about what a step for
/// satisfiability was asked to prove: the same numbers and generators, and the
/// commitments to the same sections, in the same order.
pub open spec fn public_side(t: SatTask, g: Gens, evals: (Scalar, Scalar, Scalar)) -> CheckTask {
    CheckTask {
        batch: t.batch,
        num_shared: t.num_shared,
        num_instances: t.num_instances,
        max_num_proofs: t.max_num_proofs,
        num_proofs: t.num_proofs,
        num_vars: t.num_vars,
        num_cons: if t.batch {
            t.inst.num_cons
        } else {
            t.num_cons_base
        },
        gens: t.gens,
        evals,
        comms: t.secs.map_values(|m: Seq<Seq<Seq<Scalar>>>| mat_commitments(m, g)),
    }
}

/// Whether a verifier is told all of what a prover proves: also the bounds and
/// the numbers of constraints.
pub open spec fn told_all(inp: ProverInput<'_>, v: VerifierInput<'_>) -> bool {
    &&& matches_input(inp, v)
    &&& v.total_num_proofs_bound == inp.total_num_proofs_bound
    &&& v.block_max_num_proofs_bound == inp.block_max_num_proofs_bound
    &&& v.block.num_cons == inp.block.inst@.num_cons
    &&& v.consis_comb.num_cons == inp.consis_comb.inst@.num_cons
    &&& v.consis_check.num_cons == inp.consis_check_num_cons_base
    &&& v.perm_prelim.num_cons == inp.perm_prelim.inst@.num_cons
    &&& v.perm_root.num_cons == inp.perm_root.inst@.num_cons
    &&& v.perm_block_poly.num_cons == inp.perm_poly_num_cons_base
    &&& v.perm_exec_poly.num_cons == inp.perm_poly_num_cons_base
    &&& v.mem_extract.num_cons == inp.mem_extract.inst@.num_cons
}

/// In every part the verifier asks about what the prover was asked to prove
/// there: the commitments to the same sections, with the same numbers and
/// generators, and the commitment to the same constraints.
pub proof fn law_check_asks_what_is_proved(
    inp: ProverInput<'_>,
    v: VerifierInput<'_>,
    w: WitnessMats,
    s: int,
    evals: (Scalar, Scalar, Scalar),
)
    requires
        told_all(inp, v),
        0 <= s < NUM_PARTS,
    ensures
        v.task(witness_comms(w, inp.g()), s, evals) == public_side(inp.task(w, s), inp.g(), evals),
        v.program(s).comm@ == inp.program(s).comm@,
        inp.task(w, s).inst == inp.program(s).inst@,
{
    let g = inp.g();
    let t = inp.task(w, s);
    let u = v.task(witness_comms(w, g), s, evals);
    assert(u.comms =~= t.secs.map_values(|m: Seq<Seq<Seq<Scalar>>>| mat_commitments(m, g)));
    assert(u =~= public_side(t, g, evals));
    let (a, b) = (v.programs(), inp.programs());
    assert(a[0] == b[0] && a[1] == b[1] && a[2] == b[2] && a[3] == b[3] && a[4] == b[4] && a[5]
        == b[5] && a[6] == b[6] && a[7] == b[7]);
}

/// The sections that the ten parts of the protocol are about, in the order of
/// the parts: the correctness of blocks is about their variables and inputs; the
/// combinations for the consistency check about the shared witness, the
/// execution, its weighted halves and their combinations; the check itself about
/// the combinations alone; then come the shared witness, the factors and the
/// products of the blocks, the factors and the products of the execution, and
/// the accesses to memory with their products.
pub open spec fn protocol_sections(w: WitnessMats, s: int) -> Seq<Seq<Seq<Seq<Scalar>>>> {
    if s == 0 {
        seq![w.block_vars, w.block_inputs]
    } else if s == 1 {
        seq![w.perm_w0, w.exec_inputs, w.consis_w2, w.consis_w3]
    } else if s == 2 {
        seq![w.consis_w3]
    } else if s == 3 {
        seq![w.perm_w0]
    } else if s == 4 {
        seq![w.perm_w0, w.block_inputs, w.perm_block_w2, w.perm_block_w3]
    } else if s == 5 {
        seq![w.perm_block_w3]
    } else if s == 6 {
        seq![w.perm_w0, w.exec_inputs, w.perm_exec_w2, w.perm_exec_w3]
    } else if s == 7 {
        seq![w.perm_exec_w3]
    } else if s == 8 {
        seq![w.perm_w0, w.mem_block_w1, w.block_vars, w.block_inputs]
    } else {
        seq![w.mem_block_w1]
    }
}

/// The commitments that the check of a part of the protocol is about.
pub open spec fn protocol_commitments(c: WitnessComms, s: int) -> Seq<
    Seq<Seq<crate::group::CompressedGroup>>,
> {
    if s == 0 {
        seq![c.block_vars, c.block_inputs]
    } else if s == 1 {
        seq![c.perm_w0, c.exec_inputs, c.consis_w2, c.consis_w3]
    } else if s == 2 {
        seq![c.consis_w3]
    } else if s == 3 {
        seq![c.perm_w0]
    } else if s == 4 {
        seq![c.perm_w0, c.block_inputs, c.perm_block_w2, c.perm_block_w3]
    } else if s == 5 {
        seq![c.perm_block_w3]
    } else if s == 6 {
        seq![c.perm_w0, c.exec_inputs, c.perm_exec_w2, c.perm_exec_w3]
    } else if s == 7 {
        seq![c.perm_exec_w3]
    } else if s == 8 {
        seq![c.perm_w0, c.mem_block_w1, c.block_vars, c.block_inputs]
    } else {
        seq![c.mem_block_w1]
    }
}

/// Each part is proved for the sections of the protocol, and checked against
/// the commitments to them. Where the first section is the shared witness, all
/// copies share it; the parts with one section over all rows are no batches, but
/// for the shared witness itself.
pub proof fn law_parts_of_the_protocol(
    inp: ProverInput<'_>,
    v: VerifierInput<'_>,
    w: WitnessMats,
    c: WitnessComms,
    s: int,
    evals: (Scalar, Scalar, Scalar),
)
    requires
        0 <= s < 10,
    ensures
        inp.task(w, s).secs == protocol_sections(w, s),
        v.task(c, s, evals).comms == protocol_commitments(c, s),
        inp.task(w, s).batch <==> s != 2 && s != 5 && s != 7 && s != 9,
        v.task(c, s, evals).batch <==> s != 2 && s != 5 && s != 7 && s != 9,
        inp.task(w, s).num_shared == if protocol_sections(w, s).len() == 4 {
            1nat
        } else {
            0
        },
        v.task(c, s, evals).num_shared == inp.task(w, s).num_shared,
        v.task(c, s, evals).evals == evals,
{
    assert(inp.task(w, s).secs =~= protocol_sections(w, s));
    assert(v.task(c, s, evals).comms =~= protocol_commitments(c, s));
}

/// The numbers of copies or rows of a part: those of the blocks, that of the
/// execution, or one for the shared witness. Parts that are one system over all
/// rows take the bounds that their constraints are made for.
pub proof fn law_parts_counted(
    v: VerifierInput<'_>,
    c: WitnessComms,
    s: int,
    evals: (Scalar, Scalar, Scalar),
)
    requires
        0 <= s < 10,
    ensures
        ({
            let t = v.task(c, s, evals);
            let of_blocks = s == 0 || s == 4 || s == 5 || s == 8 || s == 9;
            &&& t.num_vars == v.num_vars
            &&& of_blocks ==> t.num_instances == v.block_num_instances && t.num_proofs
                == v.block_num_proofs@
            &&& !of_blocks ==> t.num_instances == 1 && t.num_proofs.len() == 1 && t.num_proofs[0]
                == if s == 3 {
                1usize
            } else {
                v.consis_num_proofs
            }
            &&& t.max_num_proofs == if s == 3 {
                1
            } else if s == 2 || s == 7 {
                v.total_num_proofs_bound as nat
            } else if s == 5 || s == 9 {
                v.block_max_num_proofs_bound as nat
            } else if of_blocks {
                v.block_max_num_proofs as nat
            } else {
                v.consis_num_proofs as nat
            }
            &&& t.gens == if s == 2 || s == 7 {
                *v.total_proofs_times_vars_gens
            } else if s == 5 || s == 9 {
                *v.proofs_times_vars_gens
            } else {
                *v.vars_gens
            }
        }),
{
}

/// The constraints of the parts: the factors of blocks and of the execution meet
/// the same ones, and so do the products of the blocks and of their accesses to
/// memory; every other part has its own.
pub proof fn law_parts_constrained(v: VerifierInput<'_>, inp: ProverInput<'_>)
    ensures
        v.program(0) == v.block,
        v.program(1) == v.consis_comb,
        v.program(2) == v.consis_check,
        v.program(3) == v.perm_prelim,
        v.program(4) == v.perm_root,
        v.program(5) == v.perm_block_poly,
        v.program(6) == v.perm_root,
        v.program(7) == v.perm_exec_poly,
        v.program(8) == v.mem_extract,
        v.program(9) == v.perm_block_poly,
        inp.program(0) == inp.block,
        inp.program(1) == inp.consis_comb,
        inp.program(2) == inp.consis_check,
        inp.program(3) == inp.perm_prelim,
        inp.program(4) == inp.perm_root,
        inp.program(5) == inp.perm_block_poly,
        inp.program(6) == inp.perm_root,
        inp.program(7) == inp.perm_exec_poly,
        inp.program(8) == inp.mem_extract,
        inp.program(9) == inp.perm_block_poly,
{
}

/// The commitment to the constraints of a part, by the part.
pub(crate) proof fn lemma_public_program(v: VerifierInput<'_>, s: int)
    requires
        0 <= s < 10,
    ensures
        v.program(s) == crate::verify_laws::protocol_program(v, s),
{
}

/// What one part leaves is what another takes up: the combinations of the
/// halves go to the consistency check, and the factors of blocks and of the
/// execution to their products. What is opened of a product comes from the
/// section that the product was proved for.
pub proof fn law_parts_linked(inp: ProverInput<'_>, w: WitnessMats, p: int)
    requires
        0 <= p,
    ensures
        inp.task(w, 2).secs[0] == inp.task(w, 1).secs[3],
        inp.task(w, 5).secs[0] == inp.task(w, 4).secs[3],
        inp.task(w, 7).secs[0] == inp.task(w, 6).secs[3],
        inp.task(w, 9).secs[0] == inp.task(w, 8).secs[1],
        inp.task(w, 1).secs[1] == inp.task(w, 6).secs[1],
        inp.task(w, 0).secs[1] == inp.task(w, 4).secs[1],
        inp.task(w, 0).secs[1] == inp.task(w, 8).secs[3],
        inp.task(w, 0).secs[0] == inp.task(w, 8).secs[2],
        inp.task(w, 3).secs[0] == inp.task(w, 1).secs[0],
        inp.task(w, 3).secs[0] == inp.task(w, 4).secs[0],
        inp.task(w, 3).secs[0] == inp.task(w, 6).secs[0],
        inp.task(w, 3).secs[0] == inp.task(w, 8).secs[0],
        forall|s: int|
            s == 5 || s == 7 || s == 9 ==> (#[trigger] post_openings(w, s)).len() == inp.task(
                w,
                s,
            ).secs[0].len() && (p < post_openings(w, s).len() ==> post_openings(w, s)[p].z == flat(
                inp.task(w, s).secs[0][p],
            ) && post_openings(w, s)[p].value == flat(inp.task(w, s).secs[0][p])[3]
                && product_values(w, s)[p] == flat(inp.task(w, s).secs[0][p])[3]),
{
}

/// Whether a check accepts the values of matrices at a point under a
/// commitment.
pub open spec fn values_accepted<
    E,
    H: Fn(EvalCheck<'_>, &E, Transcript) -> (Result<(), ProofVerifyError>, Transcript),
>(
    eval: H,
    c: InstanceCommitment,
    gens: R1CSCommitmentGens,
    rx: Seq<Scalar>,
    ry: Seq<Scalar>,
    evals: (Scalar, Scalar, Scalar),
    proof: E,
    tr: PartTrace,
) -> bool {
    forall|comm: R1CSCommitment|
        comm@ == c ==> #[trigger] eval_accepts(eval, comm, gens, rx, ry, evals, proof, tr)
}

/// Whether the checks of a part accept the truth: what the prover's step was
/// asked to prove, and the values of the matrices of the part at the point that
/// the step left them at, under the commitment to them. The coordinates of the
/// instance come in front of those of the row where a part has several
/// instances of its constraints.
pub open spec fn truth_accepted<
    P,
    E,
    F: Fn(SatCheck<'_>, &P, Transcript) -> (Result<Challenges, ProofVerifyError>, Transcript),
    H: Fn(EvalCheck<'_>, &E, Transcript) -> (Result<(), ProofVerifyError>, Transcript),
>(
    inp: ProverInput<'_>,
    v: VerifierInput<'_>,
    w: WitnessMats,
    sat: F,
    eval: H,
    s: int,
    tr: PartTrace,
    part: PartProof<P, E>,
) -> bool {
    let rx = if s == 0 || s == 3 || s == 8 {
        tr.ch.rp@ + tr.ch.rx@
    } else {
        tr.ch.rx@
    };
    &&& sat_accepts(sat, public_side(inp.task(w, s), inp.g(), part.evals), part.sat, tr)
    &&& values_accepted(
        eval,
        inp.program(s).comm@,
        v.program(s).gens.gens_r1cs_eval,
        rx,
        tr.ch.ry@,
        part.evals,
        part.eval,
        tr,
    )
}

/// A proof of an honest execution is accepted by a verifier that is told what
/// was proved, wherever its checks accept the truth about each part and the
/// challenges of the openings have inverses.
pub proof fn law_honest_execution_accepted<
    P,
    E,
    F: Fn(SatJob<'_>, Transcript, RandomTape) -> (P, Challenges, Transcript, RandomTape),
    H: Fn(EvalJob<'_>, Transcript, RandomTape) -> (E, Transcript, RandomTape),
    G: Fn(SatCheck<'_>, &P, Transcript) -> (Result<Challenges, ProofVerifyError>, Transcript),
    K: Fn(EvalCheck<'_>, &E, Transcript) -> (Result<(), ProofVerifyError>, Transcript),
>(
    inp: ProverInput<'_>,
    v: VerifierInput<'_>,
    h: History,
    sat: F,
    eval: H,
    check_sat: G,
    check_eval: K,
    seed: Scalar,
    trace: Seq<PartTrace>,
    proof: SNARK<P, E>,
    after: History,
    ks: Seq<nat>,
    k: nat,
)
    requires
        encodes_uniquely(),
        inp.wf(),
        told_all(inp, v),
        gens_agree(inp),
        sat_sound::<P, F>(sat),
        snark_proved(inp, h, sat, eval, seed, trace, proof, after),
        executed_honestly(inp, ks, k),
        forall|s: int|
            0 <= s < NUM_PARTS ==> part_invertible(
                inp,
                inp.tau(h),
                inp.r(h),
                s,
                #[trigger] trace[s],
            )
                && truth_accepted(
                inp,
                v,
                inp.witnesses(inp.tau(h), inp.r(h)),
                check_sat,
                check_eval,
                s,
                trace[s],
                proof.part_proofs()[s],
            ),
        crate::accept_laws::openings_invertible(
            inp.vars_gens.gens_pc@,
            crate::accept_laws::io_openings(
                inp.io_claim(),
                flat(inp.exec()),
                log2_up((inp.consis_num_proofs * inp.num_vars) as nat),
            ),
            history(trace[NUM_PARTS - 1].after.0),
            trace[NUM_PARTS - 1].after.1@,
            inp.io_claim().count(),
        ),
    ensures
        snark_shaped(v, proof),
        forall|checks: Seq<CheckTrace>, step: nat, e: ProofVerifyError, end: History| !#[trigger]
            snark_refused(v, h, check_sat, check_eval, checks, step, proof, e, end),
        forall|checks: Seq<CheckTrace>, end: History| #[trigger]
            snark_accepted(v, h, check_sat, check_eval, checks, proof, end) ==> end == after,
{
    let w = inp.witnesses(inp.tau(h), inp.r(h));
    let parts = proof.part_proofs();
    assert forall|s: int| 0 <= s < NUM_PARTS implies part_invertible(
        inp,
        inp.tau(h),
        inp.r(h),
        s,
        #[trigger] trace[s],
    ) && steps_accepted(v, proof.comms(), check_sat, check_eval, s, trace[s], parts[s]) by {
        lemma_truth(inp, v, w, proof.comms(), check_sat, check_eval, s, trace[s], parts[s]);
    }
    law_honest_proof_accepted(
        inp,
        v,
        h,
        sat,
        eval,
        check_sat,
        check_eval,
        seed,
        trace,
        proof,
        after,
        ks,
        k,
    );
}

proof fn lemma_truth<
    P,
    E,
    F: Fn(SatCheck<'_>, &P, Transcript) -> (Result<Challenges, ProofVerifyError>, Transcript),
    H: Fn(EvalCheck<'_>, &E, Transcript) -> (Result<(), ProofVerifyError>, Transcript),
>(
    inp: ProverInput<'_>,
    v: VerifierInput<'_>,
    w: WitnessMats,
    c: WitnessComms,
    sat: F,
    eval: H,
    s: int,
    tr: PartTrace,
    part: PartProof<P, E>,
)
    requires
        told_all(inp, v),
        0 <= s < NUM_PARTS,
        c == witness_comms(w, inp.g()),
        truth_accepted(inp, v, w, sat, eval, s, tr, part),
    ensures
        steps_accepted(v, c, sat, eval, s, tr, part),
{
    law_check_asks_what_is_proved(inp, v, w, s, part.evals);
    lemma_kept_commitment(*v.program(s).comm);
    let rx = if s == 0 || s == 3 || s == 8 {
        tr.ch.rp@ + tr.ch.rx@
    } else {
        tr.ch.rx@
    };
    assert(part_rp(s, tr.ch) + tr.ch.rx@ =~= rx);
    assert(eval_accepts(
        eval,
        v.program(s).comm.kept(),
        v.program(s).gens.gens_r1cs_eval,
        rx,
        tr.ch.ry@,
        part.evals,
        part.eval,
        tr,
    ));
}

} // verus!
