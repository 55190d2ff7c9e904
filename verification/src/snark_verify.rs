//! The verifier of a program.
use crate::comms::{
    append_list, append_two_lists, said_list, said_two_lists, Commitments, WitnessComms,
};
use crate::dense_mlpoly::PolyCommitment;
use crate::errors::ProofVerifyError;
use crate::instance::{
    all_canonical, decoded_list, read_scalars, ComputationCommitment, SNARKGens,
};
use crate::io_proofs::{proofs, IOClaim};
use crate::jobs::{section_points, Challenges, CheckTask, EvalCheck, SatCheck};
use crate::math::{log2_up, log_2};
use crate::openings::{check_all, check_next, corner, corner_point, Claim};
use crate::parts::{append_claims, part_rp, said_claims, PartProof};
use crate::poly_eval::PolyEvalProof;
use crate::prover::{program_views, say_statement};
use crate::r1csgens::R1CSGens;
use crate::scalar::{szero, Scalar};
use crate::sparse_mlpoly::{InstanceCommitment, R1CSCommitment, R1CSCommitmentGens};
use crate::statement::{
    said_statement, BLOCK, CONSIS_CHECK, CONSIS_COMB, MEM_BLOCK_POLY, MEM_EXTRACT, NUM_PARTS,
    PERM_BLOCK_POLY, PERM_BLOCK_ROOT, PERM_EXEC_POLY, PERM_EXEC_ROOT, PERM_PRELIM,
};
use crate::transcript::{challenge, challenge_scalar, drawn, history, History};
use crate::vectors::{concat, copy_of, product, product_of, repeated, zeros};
use merlin::Transcript;
use vstd::prelude::*;

verus! {

/// The public side of the constraints of a part.
pub struct PublicProgram<'a> {
    /// The number of constraints, of an instance or for one row.
    pub num_cons: usize,
    /// The commitment to the constraints.
    pub comm: &'a ComputationCommitment,
    /// The generators.
    pub gens: &'a SNARKGens,
}

/// What is claimed.
pub struct VerifierInput<'a> {
    /// The number of the first block.
    pub input_block_num: usize,
    /// The number of the block after the last one.
    pub output_block_num: usize,
    /// The inputs of the program.
    pub input: &'a Vec<[u8; 32]>,
    /// The outputs of the program.
    pub output: &'a Vec<[u8; 32]>,
    /// The position of the last block.
    pub output_block_index: usize,
    /// The number of values of a section.
    pub num_vars: usize,
    /// Where the outputs of a block start.
    pub input_output_cutoff: usize,
    /// The largest number of executed blocks that constraints are made for.
    pub total_num_proofs_bound: usize,
    /// The number of blocks.
    pub block_num_instances: usize,
    /// The largest number of executions of a block that constraints are made
    /// for.
    pub block_max_num_proofs_bound: usize,
    /// The largest number of executions of a block.
    pub block_max_num_proofs: usize,
    /// The numbers of executions of the blocks.
    pub block_num_proofs: &'a Vec<usize>,
    /// The constraints of the blocks.
    pub block: PublicProgram<'a>,
    /// The number of executed blocks.
    pub consis_num_proofs: usize,
    /// The constraints of the combinations of inputs and outputs.
    pub consis_comb: PublicProgram<'a>,
    /// The constraints of the consistency check.
    pub consis_check: PublicProgram<'a>,
    /// The constraints of the shared witness.
    pub perm_prelim: PublicProgram<'a>,
    /// The constraints of the factors.
    pub perm_root: PublicProgram<'a>,
    /// The constraints of the products of blocks.
    pub perm_block_poly: PublicProgram<'a>,
    /// The constraints of the product of the execution.
    pub perm_exec_poly: PublicProgram<'a>,
    /// The constraints of the accesses to memory.
    pub mem_extract: PublicProgram<'a>,
    /// The constraints of the combinations of addresses.
    pub mem_addr_comb: PublicProgram<'a>,
    /// Generators for witnesses.
    pub vars_gens: &'a R1CSGens,
    /// Generators for the witness of a block as a whole.
    pub proofs_times_vars_gens: &'a R1CSGens,
    /// Generators for the witness of the execution as a whole.
    pub total_proofs_times_vars_gens: &'a R1CSGens,
}

/// Where the check of a part stands between its steps.
pub struct CheckTrace {
    /// The point at which the satisfiability proof leaves the matrices.
    pub ch: Challenges,
    /// Before the part.
    pub before: Transcript,
    /// After the proof of satisfiability.
    pub after_sat: Transcript,
    /// After what is opened then.
    pub mid: Transcript,
    /// After the proof of the values of the matrices.
    pub after_eval: Transcript,
    /// After the products.
    pub after: Transcript,
}

impl CheckTrace {
    /// The transcript that a step of the check of a part leaves.
    pub open spec fn reached(self, step: nat) -> Transcript {
        if step == 1 {
            self.after_sat
        } else if step == 2 {
            self.mid
        } else if step == 3 {
            self.after_eval
        } else {
            self.after
        }
    }
}

impl<'a> VerifierInput<'a> {
    /// The commitments to the constraints, in the order in which they are
    /// said.
    pub open spec fn programs(self) -> Seq<InstanceCommitment> {
        seq![
            self.block.comm@,
            self.consis_comb.comm@,
            self.consis_check.comm@,
            self.perm_prelim.comm@,
            self.perm_root.comm@,
            self.perm_block_poly.comm@,
            self.perm_exec_poly.comm@,
            self.mem_extract.comm@,
            self.mem_addr_comb.comm@,
        ]
    }

    /// The history after the statement and the commitments to the
    /// assignments.
    pub open spec fn said_assignments(self, h: History, c: WitnessComms) -> History {
        let h1 = said_statement(
            h,
            self.programs(),
            self.input_block_num as nat,
            self.output_block_num as nat,
            decoded_list(self.input@),
            decoded_list(self.output@),
            self.block_max_num_proofs as nat,
            self.block_num_proofs@,
        );
        let h2 = said_two_lists(
            h1,
            c.block_vars,
            c.block_inputs,
            self.block_num_instances as nat,
        );
        said_list(h2, c.exec_inputs, 1)
    }

    /// The challenge that a row is measured against.
    pub open spec fn tau(self, h: History, c: WitnessComms) -> Scalar {
        challenge(self.said_assignments(h, c), "challenge_tau"@)
    }

    /// The challenge whose powers weigh the values of a row.
    pub open spec fn r(self, h: History, c: WitnessComms) -> Scalar {
        challenge(drawn(self.said_assignments(h, c), "challenge_tau"@), "challenge_r"@)
    }

    /// The history after the commitments to all witnesses.
    pub open spec fn said_witnesses(self, h: History, c: WitnessComms) -> History {
        let h0 = drawn(drawn(self.said_assignments(h, c), "challenge_tau"@), "challenge_r"@);
        let n = self.block_num_instances as nat;
        let h1 = said_list(h0, c.perm_w0, 1);
        let h2 = said_two_lists(h1, c.perm_block_w2, c.perm_block_w3, n);
        let h3 = said_list(said_list(h2, c.perm_exec_w2, 1), c.perm_exec_w3, 1);
        let h4 = said_list(said_list(h3, c.consis_w2, 1), c.consis_w3, 1);
        said_list(h4, c.mem_block_w1, n)
    }

    /// The constraints of a part.
    pub open spec fn program(self, s: int) -> PublicProgram<'a> {
        if s == BLOCK {
            self.block
        } else if s == CONSIS_COMB {
            self.consis_comb
        } else if s == CONSIS_CHECK {
            self.consis_check
        } else if s == PERM_PRELIM {
            self.perm_prelim
        } else if s == PERM_BLOCK_ROOT || s == PERM_EXEC_ROOT {
            self.perm_root
        } else if s == PERM_BLOCK_POLY || s == MEM_BLOCK_POLY {
            self.perm_block_poly
        } else if s == PERM_EXEC_POLY {
            self.perm_exec_poly
        } else {
            self.mem_extract
        }
    }

    /// What is asked of the check of satisfiability of a part.
    pub open spec fn task(self, c: WitnessComms, s: int, evals: (Scalar, Scalar, Scalar)) -> CheckTask {
        let exec_n = seq![self.consis_num_proofs];
        let batch = CheckTask {
            batch: true,
            num_shared: 1,
            num_instances: self.block_num_instances as nat,
            max_num_proofs: self.block_max_num_proofs as nat,
            num_proofs: self.block_num_proofs@,
            num_vars: self.num_vars as nat,
            num_cons: self.program(s).num_cons as nat,
            gens: *self.vars_gens,
            evals,
            comms: seq![],
        };
        if s == BLOCK {
            CheckTask { num_shared: 0, comms: seq![c.block_vars, c.block_inputs], ..batch }
        } else if s == CONSIS_COMB {
            CheckTask {
                num_instances: 1,
                max_num_proofs: self.consis_num_proofs as nat,
                num_proofs: exec_n,
                comms: seq![c.perm_w0, c.exec_inputs, c.consis_w2, c.consis_w3],
                ..batch
            }
        } else if s == CONSIS_CHECK {
            CheckTask {
                batch: false,
                num_shared: 0,
                num_instances: 1,
                max_num_proofs: self.total_num_proofs_bound as nat,
                num_proofs: exec_n,
                gens: *self.total_proofs_times_vars_gens,
                comms: seq![c.consis_w3],
                ..batch
            }
        } else if s == PERM_PRELIM {
            CheckTask {
                num_shared: 0,
                num_instances: 1,
                max_num_proofs: 1,
                num_proofs: seq![1usize],
                comms: seq![c.perm_w0],
                ..batch
            }
        } else if s == PERM_BLOCK_ROOT {
            CheckTask {
                comms: seq![c.perm_w0, c.block_inputs, c.perm_block_w2, c.perm_block_w3],
                ..batch
            }
        } else if s == PERM_BLOCK_POLY {
            CheckTask {
                batch: false,
                num_shared: 0,
                max_num_proofs: self.block_max_num_proofs_bound as nat,
                gens: *self.proofs_times_vars_gens,
                comms: seq![c.perm_block_w3],
                ..batch
            }
        } else if s == PERM_EXEC_ROOT {
            CheckTask {
                num_instances: 1,
                max_num_proofs: self.consis_num_proofs as nat,
                num_proofs: exec_n,
                comms: seq![c.perm_w0, c.exec_inputs, c.perm_exec_w2, c.perm_exec_w3],
                ..batch
            }
        } else if s == PERM_EXEC_POLY {
            CheckTask {
                batch: false,
                num_shared: 0,
                num_instances: 1,
                max_num_proofs: self.total_num_proofs_bound as nat,
                num_proofs: exec_n,
                gens: *self.total_proofs_times_vars_gens,
                comms: seq![c.perm_exec_w3],
                ..batch
            }
        } else if s == MEM_EXTRACT {
            CheckTask {
                comms: seq![c.perm_w0, c.mem_block_w1, c.block_vars, c.block_inputs],
                ..batch
            }
        } else {
            CheckTask {
                batch: false,
                num_shared: 0,
                max_num_proofs: self.block_max_num_proofs_bound as nat,
                gens: *self.proofs_times_vars_gens,
                comms: seq![c.mem_block_w1],
                ..batch
            }
        }
    }

    /// The generators for the products of a part.
    pub open spec fn product_gens(self, s: int) -> R1CSGens {
        if s == PERM_EXEC_POLY {
            *self.total_proofs_times_vars_gens
        } else {
            *self.proofs_times_vars_gens
        }
    }

    /// The number of products that a part leaves.
    pub open spec fn product_count(self, s: int) -> nat {
        if s == PERM_BLOCK_POLY || s == MEM_BLOCK_POLY {
            self.block_num_instances as nat
        } else if s == PERM_EXEC_POLY {
            1
        } else {
            0
        }
    }

    /// The number of coordinates of the polynomial of the `p`-th product.
    pub open spec fn product_vars(self, s: int, p: int) -> nat {
        if s == PERM_EXEC_POLY {
            log2_up((self.consis_num_proofs * self.num_vars) as nat)
        } else {
            log2_up((self.block_num_proofs@[p] * self.num_vars) as nat)
        }
    }

    /// What is claimed of the products that a part leaves: each is the fourth
    /// value of its polynomial.
    pub open spec fn post_claims(self, c: WitnessComms, s: int, values: Seq<Scalar>) -> Seq<Claim> {
        let l = if s == PERM_BLOCK_POLY {
            c.perm_block_w3
        } else if s == PERM_EXEC_POLY {
            c.perm_exec_w3
        } else {
            c.mem_block_w1
        };
        Seq::new(
            self.product_count(s),
            |p: int|
                Claim { comm: l[p], point: corner(self.product_vars(s, p), 2), value: values[p] },
        )
    }

    /// What is claimed of the execution.
    pub open spec fn io_claim(self) -> IOClaim {
        IOClaim {
            input_block_num: Scalar::of(self.input_block_num as nat),
            output_block_num: Scalar::of(self.output_block_num as nat),
            input: decoded_list(self.input@),
            output: decoded_list(self.output@),
            output_block_index: self.output_block_index as nat,
            cutoff: self.input_output_cutoff as nat,
            num_vars: self.num_vars as nat,
        }
    }

    /// Whether the polynomial of `n` rows has enough coordinates, and the
    /// generators suffice for it.
    pub open spec fn rows_fit(self, n: nat, gens: R1CSGens) -> bool {
        let size = n * self.num_vars as nat;
        &&& size <= usize::MAX
        &&& log2_up(size) >= 2
        &&& gens.gens_pc.fits(log2_up(size))
    }

    /// The sizes agree, the inputs and outputs are encodings of scalars, and
    /// the generators suffice.
    pub open spec fn wf(self) -> bool {
        &&& self.num_vars >= 2
        &&& self.vars_gens.gens_pc.fits(log2_up(self.num_vars as nat))
        &&& all_canonical(self.input@)
        &&& all_canonical(self.output@)
        &&& self.io_claim().wf()
        &&& self.block_num_proofs@.len() >= self.block_num_instances
        &&& forall|p: int|
            0 <= p < self.block_num_instances ==> self.rows_fit(
                #[trigger] self.block_num_proofs@[p] as nat,
                *self.proofs_times_vars_gens,
            )
        &&& self.rows_fit(self.consis_num_proofs as nat, *self.total_proofs_times_vars_gens)
        &&& self.rows_fit(self.consis_num_proofs as nat, *self.vars_gens)
    }
}

/// What is claimed between the two steps of a part: the first two values of
/// the shared witness are the two challenges.
pub open spec fn mid_claims(c: WitnessComms, tau: Scalar, r: Scalar, s: int, ry_len: nat) -> Seq<
    Claim,
> {
    if s == PERM_PRELIM {
        seq![
            Claim { comm: c.perm_w0[0], point: repeated(szero(), ry_len), value: tau },
            Claim { comm: c.perm_w0[0], point: corner(ry_len, 1), value: r },
        ]
    } else {
        seq![]
    }
}

/// Whether a check of satisfiability was asked for a task, and gave this.
pub open spec fn sat_asked<
    P,
    F: Fn(SatCheck<'_>, &P, Transcript) -> (Result<Challenges, ProofVerifyError>, Transcript),
>(
    sat: F,
    task: CheckTask,
    proof: P,
    before: Transcript,
    reply: (Result<Challenges, ProofVerifyError>, Transcript),
) -> bool {
    exists|job: SatCheck<'_>|
        job.task() == task && job.num_secs == job.comms@.len() && #[trigger] call_ensures(
            sat,
            (job, &proof, before),
            reply,
        )
}

/// Whether a check of the values of matrices was asked, and gave this.
pub open spec fn eval_asked<
    E,
    H: Fn(EvalCheck<'_>, &E, Transcript) -> (Result<(), ProofVerifyError>, Transcript),
>(
    eval: H,
    comm: R1CSCommitment,
    gens: R1CSCommitmentGens,
    rx: Seq<Scalar>,
    ry: Seq<Scalar>,
    evals: (Scalar, Scalar, Scalar),
    proof: E,
    before: Transcript,
    reply: (Result<(), ProofVerifyError>, Transcript),
) -> bool {
    exists|job: EvalCheck<'_>, t: Transcript|
        *job.comm == comm && *job.gens == gens && job.rx@ == rx && job.ry@ == ry && job.evals
            == evals && history(t) == said_claims(history(before), evals)
            && #[trigger] call_ensures(eval, (job, &proof, t), reply)
}

/// Whether a check of satisfiability can be asked for anything, and leaves
/// the shared witness at a point of the right size.
pub open spec fn sat_check_sound<
    P,
    F: Fn(SatCheck<'_>, &P, Transcript) -> (Result<Challenges, ProofVerifyError>, Transcript),
>(sat: F) -> bool {
    &&& forall|job: SatCheck<'_>, p: &P, t: Transcript| #[trigger] call_requires(sat, (job, p, t))
    &&& forall|
        job: SatCheck<'_>,
        p: &P,
        t: Transcript,
        out: (Result<Challenges, ProofVerifyError>, Transcript),
    | #[trigger]
        call_ensures(sat, (job, p, t), out) && out.0 is Ok && job.batch && job.comms@.len() == 1
            ==> out.0->Ok_0.ry@.len() == log2_up(job.num_vars as nat)
}

/// Whether a check of the values of matrices can be asked for anything.
pub open spec fn eval_check_sound<
    E,
    H: Fn(EvalCheck<'_>, &E, Transcript) -> (Result<(), ProofVerifyError>, Transcript),
>(eval: H) -> bool {
    forall|job: EvalCheck<'_>, p: &E, t: Transcript| #[trigger] call_requires(eval, (job, p, t))
}

/// Whether the proof of a part has the openings and the products that the
/// part calls for.
pub open spec fn part_shaped<P, E>(inp: VerifierInput<'_>, s: int, part: PartProof<P, E>) -> bool {
    &&& s == PERM_PRELIM ==> part.openings@.len() >= 2
    &&& part.openings@.len() >= inp.product_count(s)
    &&& part.values@.len() >= inp.product_count(s)
}

/// Whether the product of the blocks is that of the execution.
pub open spec fn balanced<P, E>(inp: VerifierInput<'_>, parts: Seq<PartProof<P, E>>) -> bool {
    product(parts[PERM_BLOCK_POLY as int].values@.take(inp.block_num_instances as int))
        == parts[PERM_EXEC_POLY as int].values@[0]
}

/// How far the check of a part went: through the check of satisfiability
/// (one), the openings that follow it (two), the check of the values of the
/// matrices (three), and the products (four).
#[verifier::opaque]
pub open spec fn part_checked<
    P,
    E,
    F: Fn(SatCheck<'_>, &P, Transcript) -> (Result<Challenges, ProofVerifyError>, Transcript),
    H: Fn(EvalCheck<'_>, &E, Transcript) -> (Result<(), ProofVerifyError>, Transcript),
>(
    inp: VerifierInput<'_>,
    c: WitnessComms,
    tau: Scalar,
    r: Scalar,
    sat: F,
    eval: H,
    s: int,
    tr: CheckTrace,
    parts: Seq<PartProof<P, E>>,
    steps: nat,
) -> bool {
    let part = parts[s];
    let prog = inp.program(s);
    let ps = proofs(part.openings@);
    let mids = mid_claims(c, tau, r, s, tr.ch.ry@.len());
    let posts = inp.post_claims(c, s, part.values@);
    &&& steps >= 1 ==> sat_asked(
        sat,
        inp.task(c, s, part.evals),
        part.sat,
        tr.before,
        (Ok(tr.ch), tr.after_sat),
    )
    &&& steps >= 2 ==> check_all(
        inp.vars_gens.gens_pc@,
        mids,
        ps,
        history(tr.after_sat),
        mids.len(),
    ) == (true, history(tr.mid))
    &&& steps >= 3 ==> eval_asked(
        eval,
        prog.comm.kept(),
        prog.gens.gens_r1cs_eval,
        part_rp(s, tr.ch) + tr.ch.rx@,
        tr.ch.ry@,
        part.evals,
        part.eval,
        tr.mid,
        (Ok(()), tr.after_eval),
    )
    &&& steps >= 4 ==> check_all(
        inp.product_gens(s).gens_pc@,
        posts,
        ps,
        history(tr.after_eval),
        posts.len(),
    ) == (true, history(tr.after))
    &&& steps >= 5 ==> (s == PERM_EXEC_POLY ==> balanced(inp, parts))
}

/// Whether the check of a part was refused at a step, with an error. The step
/// left the transcript where the trace says.
#[verifier::opaque]
pub open spec fn part_refused<
    P,
    E,
    F: Fn(SatCheck<'_>, &P, Transcript) -> (Result<Challenges, ProofVerifyError>, Transcript),
    H: Fn(EvalCheck<'_>, &E, Transcript) -> (Result<(), ProofVerifyError>, Transcript),
>(
    inp: VerifierInput<'_>,
    c: WitnessComms,
    tau: Scalar,
    r: Scalar,
    sat: F,
    eval: H,
    s: int,
    tr: CheckTrace,
    parts: Seq<PartProof<P, E>>,
    step: nat,
    e: ProofVerifyError,
) -> bool {
    let part = parts[s];
    let prog = inp.program(s);
    let ps = proofs(part.openings@);
    let mids = mid_claims(c, tau, r, s, tr.ch.ry@.len());
    let posts = inp.post_claims(c, s, part.values@);
    if step == 1 {
        sat_asked(
            sat,
            inp.task(c, s, part.evals),
            part.sat,
            tr.before,
            (Err(e), tr.after_sat),
        )
    } else if step == 2 {
        check_all(inp.vars_gens.gens_pc@, mids, ps, history(tr.after_sat), mids.len()) == (
            false,
            history(tr.mid),
        ) && e == ProofVerifyError::InternalError
    } else if step == 3 {
        eval_asked(
            eval,
            prog.comm.kept(),
            prog.gens.gens_r1cs_eval,
            part_rp(s, tr.ch) + tr.ch.rx@,
            tr.ch.ry@,
            part.evals,
            part.eval,
            tr.mid,
            (Err(e), tr.after_eval),
        )
    } else if step == 4 {
        check_all(
            inp.product_gens(s).gens_pc@,
            posts,
            ps,
            history(tr.after_eval),
            posts.len(),
        ) == (false, history(tr.after)) && e == ProofVerifyError::InternalError
    } else {
        step == 5 && s == PERM_EXEC_POLY && !balanced(inp, parts) && e
            == ProofVerifyError::InternalError
    }
}

fn program_at<'a, 'b>(inp: &'b VerifierInput<'a>, s: usize) -> (r: &'b PublicProgram<'a>)
    ensures
        *r == inp.program(s as int),
{
    if s == BLOCK {
        &inp.block
    } else if s == CONSIS_COMB {
        &inp.consis_comb
    } else if s == CONSIS_CHECK {
        &inp.consis_check
    } else if s == PERM_PRELIM {
        &inp.perm_prelim
    } else if s == PERM_BLOCK_ROOT || s == PERM_EXEC_ROOT {
        &inp.perm_root
    } else if s == PERM_BLOCK_POLY || s == MEM_BLOCK_POLY {
        &inp.perm_block_poly
    } else if s == PERM_EXEC_POLY {
        &inp.perm_exec_poly
    } else {
        &inp.mem_extract
    }
}

/// What the check of satisfiability is asked in a part.
fn check_job<'b>(
    inp: &'b VerifierInput<'_>,
    c: &'b Commitments,
    s: usize,
    evals: (Scalar, Scalar, Scalar),
) -> (job: SatCheck<'b>)
    requires
        s < NUM_PARTS,
    ensures
        job.task() == inp.task(c@, s as int, evals),
        job.task().comms == crate::section_laws::protocol_commitments(c@, s as int),
        job.num_secs == job.comms@.len(),
{
    let batch = !(s == CONSIS_CHECK || s == PERM_BLOCK_POLY || s == PERM_EXEC_POLY || s
        == MEM_BLOCK_POLY);
    let num_shared: usize = if !batch || s == BLOCK || s == PERM_PRELIM {
        0
    } else {
        1
    };
    let exec = inp.consis_num_proofs;
    let (num_instances, num_proofs): (usize, Vec<usize>) = if s == PERM_PRELIM {
        (1, vec![1])
    } else if s == CONSIS_COMB || s == CONSIS_CHECK || s == PERM_EXEC_ROOT || s == PERM_EXEC_POLY {
        (1, vec![exec])
    } else {
        (inp.block_num_instances, crate::parts::copy_counts(inp.block_num_proofs))
    };
    let max_num_proofs: usize = if s == PERM_PRELIM {
        1
    } else if s == CONSIS_COMB || s == PERM_EXEC_ROOT {
        exec
    } else if s == CONSIS_CHECK || s == PERM_EXEC_POLY {
        inp.total_num_proofs_bound
    } else if s == PERM_BLOCK_POLY || s == MEM_BLOCK_POLY {
        inp.block_max_num_proofs_bound
    } else {
        inp.block_max_num_proofs
    };
    let gens = if batch {
        inp.vars_gens
    } else if s == CONSIS_CHECK || s == PERM_EXEC_POLY {
        inp.total_proofs_times_vars_gens
    } else {
        inp.proofs_times_vars_gens
    };
    let comms: Vec<&'b Vec<PolyCommitment>> = if s == BLOCK {
        vec![&c.block_vars, &c.block_inputs]
    } else if s == CONSIS_COMB {
        vec![&c.perm_w0, &c.exec_inputs, &c.consis_w2, &c.consis_w3]
    } else if s == CONSIS_CHECK {
        vec![&c.consis_w3]
    } else if s == PERM_PRELIM {
        vec![&c.perm_w0]
    } else if s == PERM_BLOCK_ROOT {
        vec![&c.perm_w0, &c.block_inputs, &c.perm_block_w2, &c.perm_block_w3]
    } else if s == PERM_BLOCK_POLY {
        vec![&c.perm_block_w3]
    } else if s == PERM_EXEC_ROOT {
        vec![&c.perm_w0, &c.exec_inputs, &c.perm_exec_w2, &c.perm_exec_w3]
    } else if s == PERM_EXEC_POLY {
        vec![&c.perm_exec_w3]
    } else if s == MEM_EXTRACT {
        vec![&c.perm_w0, &c.mem_block_w1, &c.block_vars, &c.block_inputs]
    } else {
        vec![&c.mem_block_w1]
    };
    let job = SatCheck {
        batch,
        num_secs: comms.len(),
        num_shared,
        num_instances,
        max_num_proofs,
        num_proofs,
        num_vars: inp.num_vars,
        num_cons: program_at(inp, s).num_cons,
        gens,
        evals,
        comms,
    };
    proof {
        let task = inp.task(c@, s as int, evals);
        assert(section_points(comms@) =~= task.comms);
        assert(task.comms =~= crate::section_laws::protocol_commitments(c@, s as int));
        assert(num_proofs@ =~= task.num_proofs);
        assert(job.task() =~= task);
    }
    job
}

/// Checks what is claimed between the two steps of a part.
fn check_mid(
    inp: &VerifierInput<'_>,
    c: &Commitments,
    tau: &Scalar,
    r: &Scalar,
    s: usize,
    ry_len: usize,
    openings: &Vec<PolyEvalProof>,
    t: &mut Transcript,
) -> (res: Result<(), ProofVerifyError>)
    requires
        inp.wf(),
        s == PERM_PRELIM ==> ry_len == log2_up(inp.num_vars as nat) && c.perm_w0@.len() >= 1
            && openings@.len() >= 2,
    ensures
        ({
            let mids = mid_claims(c@, *tau, *r, s as int, ry_len as nat);
            let all = check_all(
                inp.vars_gens.gens_pc@,
                mids,
                proofs(openings@),
                history(*old(t)),
                mids.len(),
            );
            &&& all == (res is Ok, history(*final(t)))
            &&& res matches Err(e) ==> e == ProofVerifyError::InternalError
        }),
{
    let ghost mids = mid_claims(c@, *tau, *r, s as int, ry_len as nat);
    let ghost ps = proofs(openings@);
    let ghost th = history(*t);
    if s == PERM_PRELIM {
        let gens = &inp.vars_gens.gens_pc;
        proof {
            crate::math::lemma_log2_up(inp.num_vars as nat);
        }
        match check_next(
            &openings[0],
            &c.perm_w0[0],
            &zeros(ry_len),
            tau,
            gens,
            t,
            Ghost(mids),
            Ghost(ps),
            Ghost(th),
            Ghost(0),
        ) {
            Ok(_) => {},
            Err(e) => return Err(e),
        }
        match check_next(
            &openings[1],
            &c.perm_w0[0],
            &corner_point(ry_len, 1),
            r,
            gens,
            t,
            Ghost(mids),
            Ghost(ps),
            Ghost(th),
            Ghost(1),
        ) {
            Ok(_) => {},
            Err(e) => return Err(e),
        }
    }
    Ok(())
}

/// Checks the products that a part leaves.
fn check_post(
    inp: &VerifierInput<'_>,
    c: &Commitments,
    s: usize,
    values: &Vec<Scalar>,
    openings: &Vec<PolyEvalProof>,
    t: &mut Transcript,
) -> (res: Result<(), ProofVerifyError>)
    requires
        inp.wf(),
        openings@.len() >= inp.product_count(s as int),
        values@.len() >= inp.product_count(s as int),
        c.perm_exec_w3@.len() >= 1,
        c.perm_block_w3@.len() >= inp.block_num_instances,
        c.mem_block_w1@.len() >= inp.block_num_instances,
    ensures
        ({
            let posts = inp.post_claims(c@, s as int, values@);
            let all = check_all(
                inp.product_gens(s as int).gens_pc@,
                posts,
                proofs(openings@),
                history(*old(t)),
                posts.len(),
            );
            &&& all == (res is Ok, history(*final(t)))
            &&& res matches Err(e) ==> e == ProofVerifyError::InternalError
        }),
{
    let ghost posts = inp.post_claims(c@, s as int, values@);
    let ghost ps = proofs(openings@);
    let ghost th = history(*t);
    let n: usize = if s == PERM_BLOCK_POLY || s == MEM_BLOCK_POLY {
        inp.block_num_instances
    } else if s == PERM_EXEC_POLY {
        1
    } else {
        0
    };
    let l = if s == PERM_BLOCK_POLY {
        &c.perm_block_w3
    } else if s == PERM_EXEC_POLY {
        &c.perm_exec_w3
    } else {
        &c.mem_block_w1
    };
    let gens = if s == PERM_EXEC_POLY {
        inp.total_proofs_times_vars_gens
    } else {
        inp.proofs_times_vars_gens
    };
    let mut p: usize = 0;
    while p < n
        invariant
            p <= n,
            n == inp.product_count(s as int),
            inp.wf(),
            *gens == inp.product_gens(s as int),
            l@.len() >= n,
            openings@.len() >= n,
            values@.len() >= n,
            ps == proofs(openings@),
            th == history(*old(t)),
            posts == inp.post_claims(c@, s as int, values@),
            posts.len() == n,
            forall|j: int| 0 <= j < n ==> (#[trigger] posts[j]).comm == l@[j]@,
            check_all(gens.gens_pc@, posts, ps, th, p as nat) == (true, history(*t)),
        decreases n - p,
    {
        proof {
            if s != PERM_EXEC_POLY {
                assert(inp.rows_fit(
                    inp.block_num_proofs@[p as int] as nat,
                    *inp.proofs_times_vars_gens,
                ));
            }
            assert(posts[p as int].comm == l@[p as int]@);
        }
        let copies = if s == PERM_EXEC_POLY {
            inp.consis_num_proofs
        } else {
            inp.block_num_proofs[p]
        };
        let size = copies * inp.num_vars;
        let r_len = log_2(size);
        match check_next(
            &openings[p],
            &l[p],
            &corner_point(r_len, 2),
            &values[p],
            &gens.gens_pc,
            t,
            Ghost(posts),
            Ghost(ps),
            Ghost(th),
            Ghost(p as nat),
        ) {
            Ok(_) => {},
            Err(e) => return Err(e),
        }
        p += 1;
    }
    Ok(())
}

/// What the check of a part ended in, and how far it went.
struct Checked {
    result: Result<(), ProofVerifyError>,
    t: Transcript,
    trace: Ghost<CheckTrace>,
    step: Ghost<nat>,
}

fn refused(
    e: ProofVerifyError,
    t: Transcript,
    trace: Ghost<CheckTrace>,
    step: Ghost<nat>,
) -> (r: Checked)
    ensures
        r.result == Err::<(), _>(e),
        r.t == t,
        r.trace == trace,
        r.step == step,
{
    Checked { result: Err(e), t, trace, step }
}

/// The proof has a part for each part of the program, in order.
pub open spec fn proof_shaped<P, E>(
    inp: VerifierInput<'_>,
    c: WitnessComms,
    parts: Seq<PartProof<P, E>>,
) -> bool {
    let n = inp.block_num_instances as nat;
    &&& parts.len() == NUM_PARTS
    &&& forall|s: int| 0 <= s < NUM_PARTS ==> part_shaped(inp, s, #[trigger] parts[s])
    &&& c.block_vars.len() >= n
    &&& c.block_inputs.len() >= n
    &&& c.exec_inputs.len() >= 1
    &&& c.perm_w0.len() >= 1
    &&& c.perm_block_w2.len() >= n
    &&& c.perm_block_w3.len() >= n
    &&& c.perm_exec_w2.len() >= 1
    &&& c.perm_exec_w3.len() >= 1
    &&& c.consis_w2.len() >= 1
    &&& c.consis_w3.len() >= 1
    &&& c.mem_block_w1.len() >= n
}

/// Checks one part.
fn check_part<
    P,
    E,
    F: Fn(SatCheck<'_>, &P, Transcript) -> (Result<Challenges, ProofVerifyError>, Transcript),
    H: Fn(EvalCheck<'_>, &E, Transcript) -> (Result<(), ProofVerifyError>, Transcript),
>(
    inp: &VerifierInput<'_>,
    c: &Commitments,
    tau: &Scalar,
    r: &Scalar,
    sat: &F,
    eval: &H,
    s: usize,
    parts: &Vec<PartProof<P, E>>,
    t: Transcript,
) -> (res: Checked)
    requires
        inp.wf(),
        proof_shaped(*inp, c@, parts@),
        s < NUM_PARTS,
        sat_check_sound::<P, F>(*sat),
        eval_check_sound::<E, H>(*eval),
    ensures
        res.trace@.before == t,
        match res.result {
            Ok(_) => {
                &&& part_checked(
                    *inp,
                    c@,
                    *tau,
                    *r,
                    *sat,
                    *eval,
                    s as int,
                    res.trace@,
                    parts@,
                    5,
                )
                &&& res.trace@.after == res.t
            },
            Err(e) => {
                &&& 1 <= res.step@ <= 5
                &&& res.trace@.reached(res.step@) == res.t
                &&& part_checked(
                    *inp,
                    c@,
                    *tau,
                    *r,
                    *sat,
                    *eval,
                    s as int,
                    res.trace@,
                    parts@,
                    (res.step@ - 1) as nat,
                )
                &&& part_refused(
                    *inp,
                    c@,
                    *tau,
                    *r,
                    *sat,
                    *eval,
                    s as int,
                    res.trace@,
                    parts@,
                    res.step@,
                    e,
                )
            },
        },
{
    let part = &parts[s];
    let ghost before = t;
    proof {
        reveal(part_checked);
        reveal(part_refused);
        assert(part_shaped(*inp, s as int, parts@[s as int]));
    }
    let ghost mut tr = CheckTrace {
        ch: arbitrary(),
        before,
        after_sat: arbitrary(),
        mid: arbitrary(),
        after_eval: arbitrary(),
        after: arbitrary(),
    };
    let job = check_job(inp, c, s, part.evals);
    let ghost asked = job;
    let (reply, mut t) = sat(job, &part.sat, t);
    proof {
        assert(call_ensures(*sat, (asked, &part.sat, before), (reply, t)));
        assert(sat_asked(
            *sat,
            inp.task(c@, s as int, part.evals),
            part.sat,
            before,
            (reply, t),
        ));
        tr = CheckTrace { after_sat: t, ..tr };
    }
    let ch = match reply {
        Ok(x) => x,
        Err(e) => {
            return refused(e, t, Ghost(tr), Ghost(1));
        },
    };
    proof {
        tr = CheckTrace { ch, ..tr };
        assert(asked.task().batch == asked.batch);
        assert(asked.task().comms.len() == asked.comms@.len());
    }
    let checked = check_mid(inp, c, tau, r, s, ch.ry.len(), &part.openings, &mut t);
    let ghost mid = t;
    proof {
        tr = CheckTrace { mid, ..tr };
    }
    match checked {
        Ok(_) => {},
        Err(e) => {
            return refused(e, t, Ghost(tr), Ghost(2));
        },
    }
    let prog = program_at(inp, s);
    append_claims(&mut t, &part.evals);
    let ghost tm = t;
    let rp = if s == BLOCK || s == PERM_PRELIM || s == MEM_EXTRACT {
        copy_of(&ch.rp)
    } else {
        Vec::new()
    };
    assert(rp@ =~= part_rp(s as int, ch));
    let job = EvalCheck {
        comm: prog.comm.get(),
        rx: concat(&rp, &ch.rx),
        ry: copy_of(&ch.ry),
        evals: part.evals,
        gens: &prog.gens.gens_r1cs_eval,
    };
    let ghost asked = job;
    let (reply, mut t) = eval(job, &part.eval, t);
    proof {
        assert(call_ensures(*eval, (asked, &part.eval, tm), (reply, t)));
        assert(eval_asked(
            *eval,
            prog.comm.kept(),
            prog.gens.gens_r1cs_eval,
            part_rp(s as int, ch) + ch.rx@,
            ch.ry@,
            part.evals,
            part.eval,
            mid,
            (reply, t),
        ));
        tr = CheckTrace { after_eval: t, ..tr };
    }
    match reply {
        Ok(u) => {
            assert(u == ());
        },
        Err(e) => {
            return refused(e, t, Ghost(tr), Ghost(3));
        },
    }
    let checked = check_post(inp, c, s, &part.values, &part.openings, &mut t);
    proof {
        tr = CheckTrace { after: t, ..tr };
    }
    match checked {
        Ok(_) => {},
        Err(e) => {
            return refused(e, t, Ghost(tr), Ghost(4));
        },
    }
    if s == PERM_EXEC_POLY {
        proof {
            assert(part_shaped(*inp, PERM_BLOCK_POLY as int, parts@[PERM_BLOCK_POLY as int]));
        }
        let blocks = crate::vectors::part(
            &parts[PERM_BLOCK_POLY].values,
            0,
            inp.block_num_instances,
        );
        assert(blocks@ =~= parts@[PERM_BLOCK_POLY as int].values@.take(
            inp.block_num_instances as int,
        ));
        let all = product_of(&blocks);
        if !all.equals(&part.values[0]) {
            return refused(ProofVerifyError::InternalError, t, Ghost(tr), Ghost(5));
        }
    }
    Checked { result: Ok(()), t, trace: Ghost(tr), step: Ghost(0) }
}

/// Whether the first `k` parts were checked, each from where the one before
/// it ended.
pub open spec fn parts_checked<
    P,
    E,
    F: Fn(SatCheck<'_>, &P, Transcript) -> (Result<Challenges, ProofVerifyError>, Transcript),
    H: Fn(EvalCheck<'_>, &E, Transcript) -> (Result<(), ProofVerifyError>, Transcript),
>(
    inp: VerifierInput<'_>,
    c: WitnessComms,
    tau: Scalar,
    r: Scalar,
    sat: F,
    eval: H,
    trace: Seq<CheckTrace>,
    parts: Seq<PartProof<P, E>>,
    k: nat,
) -> bool {
    &&& trace.len() >= k
    &&& forall|s: int|
        0 <= s < k ==> part_checked(inp, c, tau, r, sat, eval, s, #[trigger] trace[s], parts, 5)
    &&& forall|s: int| 0 < s < trace.len() ==> (#[trigger] trace[s]).before == trace[s - 1].after
}

/// Whether the parts before the last of a trace were checked, and that one
/// was refused.
pub open spec fn parts_refused<
    P,
    E,
    F: Fn(SatCheck<'_>, &P, Transcript) -> (Result<Challenges, ProofVerifyError>, Transcript),
    H: Fn(EvalCheck<'_>, &E, Transcript) -> (Result<(), ProofVerifyError>, Transcript),
>(
    inp: VerifierInput<'_>,
    c: WitnessComms,
    tau: Scalar,
    r: Scalar,
    sat: F,
    eval: H,
    trace: Seq<CheckTrace>,
    parts: Seq<PartProof<P, E>>,
    step: nat,
    e: ProofVerifyError,
) -> bool {
    let k = (trace.len() - 1) as nat;
    &&& 1 <= trace.len() <= NUM_PARTS
    &&& 1 <= step <= 5
    &&& parts_checked(inp, c, tau, r, sat, eval, trace, parts, k)
    &&& part_checked(
        inp,
        c,
        tau,
        r,
        sat,
        eval,
        k as int,
        trace[k as int],
        parts,
        (step - 1) as nat,
    )
    &&& part_refused(inp, c, tau, r, sat, eval, k as int, trace[k as int], parts, step, e)
}

/// What the check of all parts ended in.
pub(crate) struct AllChecked {
    pub(crate) result: Result<(), ProofVerifyError>,
    pub(crate) t: Transcript,
    pub(crate) trace: Ghost<Seq<CheckTrace>>,
    pub(crate) step: Ghost<nat>,
}

/// Checks all parts.
pub(crate) fn check_parts<
    P,
    E,
    F: Fn(SatCheck<'_>, &P, Transcript) -> (Result<Challenges, ProofVerifyError>, Transcript),
    H: Fn(EvalCheck<'_>, &E, Transcript) -> (Result<(), ProofVerifyError>, Transcript),
>(
    inp: &VerifierInput<'_>,
    c: &Commitments,
    tau: &Scalar,
    r: &Scalar,
    sat: &F,
    eval: &H,
    parts: &Vec<PartProof<P, E>>,
    t: Transcript,
) -> (res: AllChecked)
    requires
        inp.wf(),
        proof_shaped(*inp, c@, parts@),
        sat_check_sound::<P, F>(*sat),
        eval_check_sound::<E, H>(*eval),
    ensures
        res.trace@.len() > 0,
        res.trace@[0].before == t,
        match res.result {
            Ok(_) => {
                &&& res.trace@.len() == NUM_PARTS
                &&& parts_checked(
                    *inp,
                    c@,
                    *tau,
                    *r,
                    *sat,
                    *eval,
                    res.trace@,
                    parts@,
                    NUM_PARTS as nat,
                )
                &&& res.trace@[NUM_PARTS - 1].after == res.t
            },
            Err(e) => {
                &&& parts_refused(
                    *inp,
                    c@,
                    *tau,
                    *r,
                    *sat,
                    *eval,
                    res.trace@,
                    parts@,
                    res.step@,
                    e,
                )
                &&& res.trace@.last().reached(res.step@) == res.t
            },
        },
{
    let ghost first = t;
    let mut cur = t;
    let ghost mut trace: Seq<CheckTrace> = Seq::empty();
    let mut s: usize = 0;
    while s < NUM_PARTS
        invariant
            s <= NUM_PARTS,
            inp.wf(),
            proof_shaped(*inp, c@, parts@),
            sat_check_sound::<P, F>(*sat),
            eval_check_sound::<E, H>(*eval),
            trace.len() == s,
            parts_checked(*inp, c@, *tau, *r, *sat, *eval, trace, parts@, s as nat),
            first == t,
            s == 0 ==> cur == first,
            s > 0 ==> trace[0].before == first && trace[s - 1].after == cur,
        decreases NUM_PARTS - s,
    {
        let out = check_part(inp, c, tau, r, sat, eval, s, parts, cur);
        let ghost old_trace = trace;
        proof {
            trace = trace.push(out.trace@);
            assert forall|k: int| 0 <= k < s implies part_checked(
                *inp,
                c@,
                *tau,
                *r,
                *sat,
                *eval,
                k,
                #[trigger] trace[k],
                parts@,
                5,
            ) by {
                assert(trace[k] == old_trace[k]);
            }
            assert forall|k: int| 0 < k < trace.len() implies (#[trigger] trace[k]).before
                == trace[k - 1].after by {
                if k < s {
                    assert(trace[k] == old_trace[k]);
                }
            }
        }
        cur = out.t;
        match out.result {
            Ok(_) => {},
            Err(e) => {
                return AllChecked { result: Err(e), t: cur, trace: Ghost(trace), step: out.step };
            },
        }
        s += 1;
    }
    AllChecked { result: Ok(()), t: cur, trace: Ghost(trace), step: Ghost(0) }
}

/// Says the statement and the commitments to the witnesses, and draws the two
/// challenges in between.
pub(crate) fn follow(inp: &VerifierInput<'_>, c: &Commitments, t: &mut Transcript) -> (res: (
    Scalar,
    Scalar,
    Vec<Scalar>,
    Vec<Scalar>,
))
    requires
        inp.wf(),
        c.block_vars@.len() >= inp.block_num_instances,
        c.block_inputs@.len() >= inp.block_num_instances,
        c.exec_inputs@.len() >= 1,
        c.perm_w0@.len() >= 1,
        c.perm_block_w2@.len() >= inp.block_num_instances,
        c.perm_block_w3@.len() >= inp.block_num_instances,
        c.perm_exec_w2@.len() >= 1,
        c.perm_exec_w3@.len() >= 1,
        c.consis_w2@.len() >= 1,
        c.consis_w3@.len() >= 1,
        c.mem_block_w1@.len() >= inp.block_num_instances,
    ensures
        res.0 == inp.tau(history(*old(t)), c@),
        res.1 == inp.r(history(*old(t)), c@),
        res.2@ == decoded_list(inp.input@),
        res.3@ == decoded_list(inp.output@),
        history(*final(t)) == inp.said_witnesses(history(*old(t)), c@),
{
    let input = match read_scalars(inp.input.as_slice()) {
        Ok(s) => s,
        Err(_) => Vec::new(),
    };
    let output = match read_scalars(inp.output.as_slice()) {
        Ok(s) => s,
        Err(_) => Vec::new(),
    };
    let programs: Vec<&R1CSCommitment> = vec![
        inp.block.comm.get(),
        inp.consis_comb.comm.get(),
        inp.consis_check.comm.get(),
        inp.perm_prelim.comm.get(),
        inp.perm_root.comm.get(),
        inp.perm_block_poly.comm.get(),
        inp.perm_exec_poly.comm.get(),
        inp.mem_extract.comm.get(),
        inp.mem_addr_comb.comm.get(),
    ];
    assert(program_views(programs@) =~= inp.programs());
    say_statement(
        &programs,
        inp.input_block_num,
        inp.output_block_num,
        &input,
        &output,
        inp.block_max_num_proofs,
        inp.block_num_proofs,
        t,
    );
    let n = inp.block_num_instances;
    append_two_lists(&c.block_vars, &c.block_inputs, n, t);
    append_list(&c.exec_inputs, 1, t);
    let tau = challenge_scalar(t, "challenge_tau");
    let r = challenge_scalar(t, "challenge_r");
    append_list(&c.perm_w0, 1, t);
    append_two_lists(&c.perm_block_w2, &c.perm_block_w3, n, t);
    append_list(&c.perm_exec_w2, 1, t);
    append_list(&c.perm_exec_w3, 1, t);
    append_list(&c.consis_w2, 1, t);
    append_list(&c.consis_w3, 1, t);
    append_list(&c.mem_block_w1, n, t);
    (tau, r, input, output)
}

} // verus!
