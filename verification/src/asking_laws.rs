//! What the steps for a part are asked, and what their refusals give.
use crate::comms::WitnessComms;
use crate::errors::ProofVerifyError;
use crate::io_proofs::{proofs, verify_claims};
use crate::jobs::{Challenges, EvalCheck, SatCheck};
use crate::math::log2_up;
use crate::openings::check_all;
use crate::scalar::Scalar;
use crate::snark::{snark_refused, SNARK};
use crate::snark_verify::{
    mid_claims, part_refused, parts_refused, sat_asked, CheckTrace, VerifierInput,
};
use crate::statement::{ProverInput, WitnessMats};
use crate::transcript::{history, History};
use crate::vectors::product;
use merlin::Transcript;
use vstd::prelude::*;

verus! {

/// Whether a part proves one system of constraints over all rows.
pub open spec fn over_rows(s: int) -> bool {
    s == 2 || s == 5 || s == 7 || s == 9
}

/// Whether the copies of a part share the witness of the challenges.
pub open spec fn shares(s: int) -> bool {
    s == 1 || s == 4 || s == 6 || s == 8
}

/// Whether a part is about the blocks.
pub open spec fn about_blocks(s: int) -> bool {
    s == 0 || s == 4 || s == 5 || s == 8 || s == 9
}

/// A check asks for copies of instances, or for one system over all rows where
/// an execution or products are chained. Copies share the witness of the
/// challenges wherever their constraints use it. The constraints are as many as
/// those of the program of the part.
pub proof fn law_checks_asked(
    v: VerifierInput<'_>,
    c: WitnessComms,
    s: int,
    evals: (Scalar, Scalar, Scalar),
)
    requires
        0 <= s < 10,
    ensures
        ({
            let t = v.task(c, s, evals);
            &&& t.batch <==> !over_rows(s)
            &&& t.num_shared == if shares(s) {
                1nat
            } else {
                0nat
            }
            &&& t.evals == evals
            &&& t.num_cons == if s == 0 {
                v.block.num_cons
            } else if s == 1 {
                v.consis_comb.num_cons
            } else if s == 2 {
                v.consis_check.num_cons
            } else if s == 3 {
                v.perm_prelim.num_cons
            } else if s == 4 || s == 6 {
                v.perm_root.num_cons
            } else if s == 7 {
                v.perm_exec_poly.num_cons
            } else if s == 8 {
                v.mem_extract.num_cons
            } else {
                v.perm_block_poly.num_cons
            }
        }),
{
}

/// A proof is asked for what its check will be asked for: copies of instances,
/// or one system over all rows with the number of constraints for a row; the
/// numbers of instances and of copies; the generators.
pub proof fn law_proofs_asked(inp: ProverInput<'_>, w: WitnessMats, s: int)
    requires
        0 <= s < 10,
    ensures
        ({
            let t = inp.task(w, s);
            &&& t.batch <==> !over_rows(s)
            &&& t.num_shared == if shares(s) {
                1nat
            } else {
                0nat
            }
            &&& t.num_vars == inp.num_vars
            &&& about_blocks(s) ==> t.num_instances == inp.block_num_instances && t.num_proofs
                == inp.block_num_proofs@
            &&& !about_blocks(s) ==> t.num_instances == 1 && t.num_proofs.len() == 1
                && t.num_proofs[0] == if s == 3 {
                1usize
            } else {
                inp.consis_num_proofs
            }
            &&& t.max_num_proofs == if s == 3 {
                1
            } else if s == 2 || s == 7 {
                inp.total_num_proofs_bound as nat
            } else if s == 5 || s == 9 {
                inp.block_max_num_proofs_bound as nat
            } else if about_blocks(s) {
                inp.block_max_num_proofs as nat
            } else {
                inp.consis_num_proofs as nat
            }
            &&& s == 2 ==> t.num_cons_base == inp.consis_check_num_cons_base
            &&& s == 5 || s == 7 || s == 9 ==> t.num_cons_base == inp.perm_poly_num_cons_base
            &&& t.gens == if s == 2 || s == 7 {
                *inp.total_proofs_times_vars_gens
            } else if s == 5 || s == 9 {
                *inp.proofs_times_vars_gens
            } else {
                *inp.vars_gens
            }
        }),
{
}

/// Whether the check of satisfiability refused a proof with an error.
pub open spec fn sat_says<
    P,
    F: Fn(SatCheck<'_>, &P, Transcript) -> (Result<Challenges, ProofVerifyError>, Transcript),
>(sat: F, p: P, before: Transcript, e: ProofVerifyError, after: Transcript) -> bool {
    exists|job: SatCheck<'_>| #[trigger] call_ensures(sat, (job, &p, before), (Err(e), after))
}

/// Whether the check of values refused a proof with an error.
pub open spec fn eval_says<
    E,
    H: Fn(EvalCheck<'_>, &E, Transcript) -> (Result<(), ProofVerifyError>, Transcript),
>(eval: H, p: E, e: ProofVerifyError, after: Transcript) -> bool {
    exists|job: EvalCheck<'_>, t: Transcript| #[trigger]
        call_ensures(eval, (job, &p, t), (Err(e), after))
}

/// A proof is refused for one of these reasons. A check that was handed in
/// refuses the part that was reached: then the error is its own. Or, with an
/// internal error: an opening of the part is refused, the product of the blocks
/// is not that of the execution, or a claim about inputs and outputs is refused.
/// The transcript stays where the refusal came.
pub proof fn law_refusal_error<
    P,
    E,
    F: Fn(SatCheck<'_>, &P, Transcript) -> (Result<Challenges, ProofVerifyError>, Transcript),
    H: Fn(EvalCheck<'_>, &E, Transcript) -> (Result<(), ProofVerifyError>, Transcript),
>(
    v: VerifierInput<'_>,
    h: History,
    sat: F,
    eval: H,
    trace: Seq<CheckTrace>,
    step: nat,
    proof: SNARK<P, E>,
    e: ProofVerifyError,
    after: History,
)
    requires
        snark_refused(v, h, sat, eval, trace, step, proof, e, after),
    ensures
        ({
            let s = trace.len() - 1;
            let tr = trace[s];
            let part = proof.parts@[s];
            let c = proof.comms();
            let ps = proofs(part.openings@);
            let mids = mid_claims(c, v.tau(h, c), v.r(h, c), s, tr.ch.ry@.len());
            let posts = v.post_claims(c, s, part.values@);
            let len = log2_up((v.consis_num_proofs * v.num_vars) as nat);
            let claim = v.io_claim();
            let internal = e == ProofVerifyError::InternalError;
            ||| sat_says(sat, part.sat, tr.before, e, tr.after_sat) && after == history(
                tr.after_sat,
            )
            ||| internal && check_all(
                v.vars_gens.gens_pc@,
                mids,
                ps,
                history(tr.after_sat),
                mids.len(),
            ) == (false, after)
            ||| eval_says(eval, part.eval, e, tr.after_eval) && after == history(tr.after_eval)
            ||| internal && check_all(
                v.product_gens(s).gens_pc@,
                posts,
                ps,
                history(tr.after_eval),
                posts.len(),
            ) == (false, after)
            ||| internal && s == 7 && product(
                proof.parts@[5].values@.take(v.block_num_instances as int),
            ) != proof.parts@[7].values@[0] && after == history(tr.after)
            ||| internal && trace.len() == 10 && verify_claims(
                v.vars_gens.gens_pc@,
                c.exec_inputs[0],
                len,
                claim,
                proof.io(),
                history(tr.after),
                claim.count(),
            ) == (false, after)
        }),
{
    reveal(part_refused);
    let s = trace.len() - 1;
    let tr = trace[s];
    let part = proof.parts@[s];
    let c = proof.comms();
    let (tau, r) = (v.tau(h, c), v.r(h, c));
    let task = v.task(c, s, part.evals);
    if parts_refused(v, c, tau, r, sat, eval, trace, proof.part_proofs(), step, e) && after
        == history(tr.reached(step)) {
        if step == 1 {
            assert(sat_asked(sat, task, part.sat, tr.before, (Err(e), tr.after_sat)));
            let job = choose|job: SatCheck<'_>|
                job.task() == task && job.num_secs == job.comms@.len() && #[trigger] call_ensures(
                    sat,
                    (job, &part.sat, tr.before),
                    (Err(e), tr.after_sat),
                );
            assert(call_ensures(sat, (job, &part.sat, tr.before), (Err(e), tr.after_sat)));
        } else if step == 3 {
            assert(eval_says(eval, part.eval, e, tr.after_eval));
        }
    }
}

} // verus!
