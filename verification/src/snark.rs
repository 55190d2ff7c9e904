//! Proofs that a program was executed.
use crate::comms::{witness_comms, Commitments, WitnessComms};
use crate::committed::{lemma_comms, mat_commitments, take_comms, Committed};
use crate::commitments::Gens;
use crate::dense_mlpoly::PolyCommitment;
use crate::errors::ProofVerifyError;
use crate::instance::{
    ComputationCommitment, ComputationDecommitment, InputsAssignment, Instance, MemsAssignment,
    SNARKGens, VarsAssignment,
};
use crate::io_proofs::{claims_proved, verify_claims, IOProofs, IOProofsView};
use crate::jobs::{points_of, Challenges, EvalCheck, EvalJob, SatCheck, SatJob};
use crate::math::log2_up;
use crate::parts::{
    eval_sound, parts_proved, prove_parts, sat_sound, PartProof, PartTrace,
};
use crate::prover::prepare;
use crate::r1csgens::R1CSGens;
use crate::random::{fresh_tape, RandomTape};
use crate::scalar::Scalar;
use crate::snark_verify::{
    check_parts, eval_check_sound, follow, parts_checked, parts_refused, proof_shaped,
    sat_check_sound, CheckTrace, PublicProgram, VerifierInput,
};
use crate::sparse_mlpoly::{committable, encoded_instance};
use crate::statement::{Program, ProverInput, NUM_PARTS};
use crate::transcript::{history, merlin_clone, History};
use crate::vectors::flat;
use merlin::Transcript;
use vstd::prelude::*;
use vstd::string::StringSliceAdditionalSpecFns;

verus! {

/// A proof that a program was executed. `P` is the type of the proofs of
/// satisfiability of its parts, `E` that of the proofs of the values of their
/// matrices.
pub struct SNARK<P, E> {
    /// The commitments to the witnesses.
    pub comms: Commitments,
    /// The proofs of the parts.
    pub parts: Vec<PartProof<P, E>>,
    /// The proof about inputs and outputs.
    pub io_proof: IOProofs,
}

impl<P, E> SNARK<P, E> {
    /// The commitments to the witnesses.
    pub open spec fn comms(self) -> WitnessComms {
        self.comms@
    }

    /// The proofs of the parts.
    pub open spec fn part_proofs(self) -> Seq<PartProof<P, E>> {
        self.parts@
    }

    /// The proofs about the input and the output.
    pub open spec fn io(self) -> IOProofsView {
        self.io_proof@
    }
}

impl SNARK<(), ()> {
    /// The name of the protocol.
    pub fn protocol_name() -> (r: &'static [u8])
        ensures
            r@ == "Spartan SNARK proof".spec_bytes(),
    {
        "Spartan SNARK proof".as_bytes()
    }

    /// Commits to the constraints of a part.
    pub fn encode(inst: &Instance, gens: &SNARKGens) -> (r: (
        ComputationCommitment,
        ComputationDecommitment,
    ))
        requires
            committable(inst@, gens.gens_r1cs_eval),
        ensures
            (r.0@, r.1.kept()@) == encoded_instance(inst@, gens.gens_r1cs_eval),
    {
        let (comm, decomm) = inst.get().commit(&gens.gens_r1cs_eval);
        (ComputationCommitment::new(comm), ComputationDecommitment::new(decomm))
    }
}

/// Whether a proof is one of a statement, made with the two steps for its
/// parts, from a transcript with the history `h` to one with `after`.
pub open spec fn snark_proved<
    P,
    E,
    F: Fn(SatJob<'_>, Transcript, RandomTape) -> (P, Challenges, Transcript, RandomTape),
    H: Fn(EvalJob<'_>, Transcript, RandomTape) -> (E, Transcript, RandomTape),
>(
    inp: ProverInput<'_>,
    h: History,
    sat: F,
    eval: H,
    seed: Scalar,
    trace: Seq<PartTrace>,
    proof: SNARK<P, E>,
    after: History,
) -> bool {
    let (tau, r) = (inp.tau(h), inp.r(h));
    let w = inp.witnesses(tau, r);
    let last = trace[NUM_PARTS - 1].after;
    &&& proof.comms() == witness_comms(w, inp.g())
    &&& proof.part_proofs().len() == NUM_PARTS
    &&& history(trace[0].before.0) == inp.said_witnesses(h)
    &&& trace[0].before.1@ == fresh_tape("proof", seed)
    &&& parts_proved(inp, tau, r, sat, eval, trace, proof.part_proofs())
    &&& claims_proved(
        inp.vars_gens.gens_pc@,
        flat(inp.exec()),
        log2_up((inp.consis_num_proofs * inp.num_vars) as nat),
        inp.io_claim(),
        history(last.0),
        last.1@,
        proof.io(),
        after,
    )
}

fn comms_of_list(l: Vec<Committed>, g: Ghost<Gens>) -> (r: Vec<PolyCommitment>)
    requires
        crate::committed::all_wf(l@, g@),
    ensures
        points_of(r@) == mat_commitments(crate::committed::mats_of(l@), g@),
{
    let ghost all = l@;
    let r = take_comms(l);
    proof {
        lemma_comms(all, g@);
        assert(points_of(r@) =~= crate::committed::comms_of(all));
    }
    r
}

/// Proves a statement.
fn prove_input<
    P,
    E,
    F: Fn(SatJob<'_>, Transcript, RandomTape) -> (P, Challenges, Transcript, RandomTape),
    H: Fn(EvalJob<'_>, Transcript, RandomTape) -> (E, Transcript, RandomTape),
>(inp: &ProverInput<'_>, sat: &F, eval: &H, transcript: &mut Transcript) -> (res: SNARK<P, E>)
    requires
        inp.wf(),
        sat_sound::<P, F>(*sat),
        eval_sound::<E, H>(*eval),
    ensures
        exists|seed: Scalar, trace: Seq<PartTrace>|
            snark_proved(
                *inp,
                history(*old(transcript)),
                *sat,
                *eval,
                seed,
                trace,
                res,
                history(*final(transcript)),
            ),
{
    let ghost h = history(*transcript);
    proof {
        reveal_strlit("proof");
        vstd::utf8::is_ascii_chars_encode_utf8("proof"@);
    }
    let tape = RandomTape::new("proof");
    let ghost seed = choose|seed: Scalar| tape@ == fresh_tape("proof", seed);
    let mut t = merlin_clone(transcript);
    let (w, tau, r, input, output) = prepare(inp, &mut t);
    let ghost mats = w.mats();
    proof {
        inp.lemma_exec_fits(mats, tau, r);
    }
    let (parts, t, tape, trace) = prove_parts(inp, &w, &tau, &r, sat, eval, t, tape);
    let mut t = t;
    let mut tape = tape;
    let ghost (last_t, last_tape) = (history(t), tape@);
    proof {
        assert(w.mats().exec_inputs.len() == w.exec_inputs@.len());
        assert(w.mats().exec_inputs[0] == w.exec_inputs@[0].mat());
        assert(w.exec_inputs@[0].wf(inp.g()));
        assert(0 < inp.consis_num_proofs * inp.num_vars);
        assert(flat(inp.exec()).len() == (inp.consis_num_proofs * inp.num_vars) as nat);
    }
    let io_proof = IOProofs::prove(
        &w.exec_inputs[0].poly,
        inp.num_vars,
        inp.consis_num_proofs,
        Scalar::from_u64(inp.input_block_num as u64),
        Scalar::from_u64(inp.output_block_num as u64),
        &input,
        &output,
        inp.output_block_index,
        inp.input_output_cutoff,
        inp.vars_gens,
        &mut t,
        &mut tape,
    );
    let ghost end = history(t);
    *transcript = t;
    let ghost g = inp.g();
    let res = SNARK {
        comms: Commitments {
            block_vars: comms_of_list(w.block_vars, Ghost(g)),
            block_inputs: comms_of_list(w.block_inputs, Ghost(g)),
            exec_inputs: comms_of_list(w.exec_inputs, Ghost(g)),
            perm_w0: comms_of_list(w.perm_w0, Ghost(g)),
            perm_block_w2: comms_of_list(w.perm_block_w2, Ghost(g)),
            perm_block_w3: comms_of_list(w.perm_block_w3, Ghost(g)),
            perm_exec_w2: comms_of_list(w.perm_exec_w2, Ghost(g)),
            perm_exec_w3: comms_of_list(w.perm_exec_w3, Ghost(g)),
            consis_w2: comms_of_list(w.consis_w2, Ghost(g)),
            consis_w3: comms_of_list(w.consis_w3, Ghost(g)),
            mem_block_w1: comms_of_list(w.mem_block_w1, Ghost(g)),
        },
        parts,
        io_proof,
    };
    proof {
        assert(res.comms() =~= witness_comms(mats, g));
        assert(snark_proved(*inp, h, *sat, *eval, seed, trace@, res, end));
    }
    res
}

impl SNARK<(), ()> {
    /// Proves that a program was executed. `sat` proves that the constraints
    /// of a part are satisfied, `eval` proves the values of its matrices.
    pub fn prove<
        P,
        E,
        F: Fn(SatJob<'_>, Transcript, RandomTape) -> (P, Challenges, Transcript, RandomTape),
        H: Fn(EvalJob<'_>, Transcript, RandomTape) -> (E, Transcript, RandomTape),
    >(
        input_block_num: usize,
        output_block_num: usize,
        input: &Vec<[u8; 32]>,
        output: &Vec<[u8; 32]>,
        output_block_index: usize,
        num_vars: usize,
        input_output_cutoff: usize,
        total_num_proofs_bound: usize,
        block_num_instances: usize,
        block_max_num_proofs_bound: usize,
        block_max_num_proofs: usize,
        block_num_proofs: &Vec<usize>,
        block_inst: &Instance,
        block_comm: &ComputationCommitment,
        block_decomm: &ComputationDecommitment,
        block_gens: &SNARKGens,
        consis_num_proofs: usize,
        consis_comb_inst: &Instance,
        consis_comb_comm: &ComputationCommitment,
        consis_comb_decomm: &ComputationDecommitment,
        consis_comb_gens: &SNARKGens,
        consis_check_num_cons_base: usize,
        consis_check_inst: &Instance,
        consis_check_comm: &ComputationCommitment,
        consis_check_decomm: &ComputationDecommitment,
        consis_check_gens: &SNARKGens,
        perm_prelim_inst: &Instance,
        perm_prelim_comm: &ComputationCommitment,
        perm_prelim_decomm: &ComputationDecommitment,
        perm_prelim_gens: &SNARKGens,
        perm_root_inst: &Instance,
        perm_root_comm: &ComputationCommitment,
        perm_root_decomm: &ComputationDecommitment,
        perm_root_gens: &SNARKGens,
        perm_poly_num_cons_base: usize,
        perm_block_poly_inst: &Instance,
        perm_block_poly_comm: &ComputationCommitment,
        perm_block_poly_decomm: &ComputationDecommitment,
        perm_block_poly_gens: &SNARKGens,
        perm_exec_poly_inst: &Instance,
        perm_exec_poly_comm: &ComputationCommitment,
        perm_exec_poly_decomm: &ComputationDecommitment,
        perm_exec_poly_gens: &SNARKGens,
        block_num_mem_accesses: Vec<usize>,
        mem_extract_inst: &Instance,
        mem_extract_comm: &ComputationCommitment,
        mem_extract_decomm: &ComputationDecommitment,
        mem_extract_gens: &SNARKGens,
        mem_addr_comb_inst: &Instance,
        mem_addr_comb_comm: &ComputationCommitment,
        mem_addr_comb_decomm: &ComputationDecommitment,
        mem_addr_comb_gens: &SNARKGens,
        block_vars_mat: Vec<Vec<VarsAssignment>>,
        block_inputs_mat: Vec<Vec<InputsAssignment>>,
        exec_inputs_list: Vec<InputsAssignment>,
        block_mems_mat: Vec<Vec<MemsAssignment>>,
        vars_gens: &R1CSGens,
        proofs_times_vars_gens: &R1CSGens,
        total_proofs_times_vars_gens: &R1CSGens,
        sat: F,
        eval: H,
        transcript: &mut Transcript,
    ) -> (res: SNARK<P, E>)
        requires
            (ProverInput {
                input_block_num,
                output_block_num,
                input,
                output,
                output_block_index,
                num_vars,
                input_output_cutoff,
                total_num_proofs_bound,
                block_num_instances,
                block_max_num_proofs_bound,
                block_max_num_proofs,
                block_num_proofs,
                block: Program {
                    inst: block_inst,
                    comm: block_comm,
                    decomm: block_decomm,
                    gens: block_gens,
                },
                consis_num_proofs,
                consis_comb: Program {
                    inst: consis_comb_inst,
                    comm: consis_comb_comm,
                    decomm: consis_comb_decomm,
                    gens: consis_comb_gens,
                },
                consis_check_num_cons_base,
                consis_check: Program {
                    inst: consis_check_inst,
                    comm: consis_check_comm,
                    decomm: consis_check_decomm,
                    gens: consis_check_gens,
                },
                perm_prelim: Program {
                    inst: perm_prelim_inst,
                    comm: perm_prelim_comm,
                    decomm: perm_prelim_decomm,
                    gens: perm_prelim_gens,
                },
                perm_root: Program {
                    inst: perm_root_inst,
                    comm: perm_root_comm,
                    decomm: perm_root_decomm,
                    gens: perm_root_gens,
                },
                perm_poly_num_cons_base,
                perm_block_poly: Program {
                    inst: perm_block_poly_inst,
                    comm: perm_block_poly_comm,
                    decomm: perm_block_poly_decomm,
                    gens: perm_block_poly_gens,
                },
                perm_exec_poly: Program {
                    inst: perm_exec_poly_inst,
                    comm: perm_exec_poly_comm,
                    decomm: perm_exec_poly_decomm,
                    gens: perm_exec_poly_gens,
                },
                block_num_mem_accesses: &block_num_mem_accesses,
                mem_extract: Program {
                    inst: mem_extract_inst,
                    comm: mem_extract_comm,
                    decomm: mem_extract_decomm,
                    gens: mem_extract_gens,
                },
                mem_addr_comb: Program {
                    inst: mem_addr_comb_inst,
                    comm: mem_addr_comb_comm,
                    decomm: mem_addr_comb_decomm,
                    gens: mem_addr_comb_gens,
                },
                block_vars_mat: &block_vars_mat,
                block_inputs_mat: &block_inputs_mat,
                exec_inputs_list: &exec_inputs_list,
                block_mems_mat: &block_mems_mat,
                vars_gens,
                proofs_times_vars_gens,
                total_proofs_times_vars_gens,
            }).wf(),
            sat_sound::<P, F>(sat),
            eval_sound::<E, H>(eval),
        ensures
            exists|seed: Scalar, trace: Seq<PartTrace>|
                snark_proved(
                    (ProverInput {
                        input_block_num,
                        output_block_num,
                        input,
                        output,
                        output_block_index,
                        num_vars,
                        input_output_cutoff,
                        total_num_proofs_bound,
                        block_num_instances,
                        block_max_num_proofs_bound,
                        block_max_num_proofs,
                        block_num_proofs,
                        block: Program {
                            inst: block_inst,
                            comm: block_comm,
                            decomm: block_decomm,
                            gens: block_gens,
                        },
                        consis_num_proofs,
                        consis_comb: Program {
                            inst: consis_comb_inst,
                            comm: consis_comb_comm,
                            decomm: consis_comb_decomm,
                            gens: consis_comb_gens,
                        },
                        consis_check_num_cons_base,
                        consis_check: Program {
                            inst: consis_check_inst,
                            comm: consis_check_comm,
                            decomm: consis_check_decomm,
                            gens: consis_check_gens,
                        },
                        perm_prelim: Program {
                            inst: perm_prelim_inst,
                            comm: perm_prelim_comm,
                            decomm: perm_prelim_decomm,
                            gens: perm_prelim_gens,
                        },
                        perm_root: Program {
                            inst: perm_root_inst,
                            comm: perm_root_comm,
                            decomm: perm_root_decomm,
                            gens: perm_root_gens,
                        },
                        perm_poly_num_cons_base,
                        perm_block_poly: Program {
                            inst: perm_block_poly_inst,
                            comm: perm_block_poly_comm,
                            decomm: perm_block_poly_decomm,
                            gens: perm_block_poly_gens,
                        },
                        perm_exec_poly: Program {
                            inst: perm_exec_poly_inst,
                            comm: perm_exec_poly_comm,
                            decomm: perm_exec_poly_decomm,
                            gens: perm_exec_poly_gens,
                        },
                        block_num_mem_accesses: &block_num_mem_accesses,
                        mem_extract: Program {
                            inst: mem_extract_inst,
                            comm: mem_extract_comm,
                            decomm: mem_extract_decomm,
                            gens: mem_extract_gens,
                        },
                        mem_addr_comb: Program {
                            inst: mem_addr_comb_inst,
                            comm: mem_addr_comb_comm,
                            decomm: mem_addr_comb_decomm,
                            gens: mem_addr_comb_gens,
                        },
                        block_vars_mat: &block_vars_mat,
                        block_inputs_mat: &block_inputs_mat,
                        exec_inputs_list: &exec_inputs_list,
                        block_mems_mat: &block_mems_mat,
                        vars_gens,
                        proofs_times_vars_gens,
                        total_proofs_times_vars_gens,
                    }),
                    history(*old(transcript)),
                    sat,
                    eval,
                    seed,
                    trace,
                    res,
                    history(*final(transcript)),
                ),
    {
        let inp = ProverInput {
            input_block_num,
            output_block_num,
            input,
            output,
            output_block_index,
            num_vars,
            input_output_cutoff,
            total_num_proofs_bound,
            block_num_instances,
            block_max_num_proofs_bound,
            block_max_num_proofs,
            block_num_proofs,
            block: Program {
                inst: block_inst,
                comm: block_comm,
                decomm: block_decomm,
                gens: block_gens,
            },
            consis_num_proofs,
            consis_comb: Program {
                inst: consis_comb_inst,
                comm: consis_comb_comm,
                decomm: consis_comb_decomm,
                gens: consis_comb_gens,
            },
            consis_check_num_cons_base,
            consis_check: Program {
                inst: consis_check_inst,
                comm: consis_check_comm,
                decomm: consis_check_decomm,
                gens: consis_check_gens,
            },
            perm_prelim: Program {
                inst: perm_prelim_inst,
                comm: perm_prelim_comm,
                decomm: perm_prelim_decomm,
                gens: perm_prelim_gens,
            },
            perm_root: Program {
                inst: perm_root_inst,
                comm: perm_root_comm,
                decomm: perm_root_decomm,
                gens: perm_root_gens,
            },
            perm_poly_num_cons_base,
            perm_block_poly: Program {
                inst: perm_block_poly_inst,
                comm: perm_block_poly_comm,
                decomm: perm_block_poly_decomm,
                gens: perm_block_poly_gens,
            },
            perm_exec_poly: Program {
                inst: perm_exec_poly_inst,
                comm: perm_exec_poly_comm,
                decomm: perm_exec_poly_decomm,
                gens: perm_exec_poly_gens,
            },
            block_num_mem_accesses: &block_num_mem_accesses,
            mem_extract: Program {
                inst: mem_extract_inst,
                comm: mem_extract_comm,
                decomm: mem_extract_decomm,
                gens: mem_extract_gens,
            },
            mem_addr_comb: Program {
                inst: mem_addr_comb_inst,
                comm: mem_addr_comb_comm,
                decomm: mem_addr_comb_decomm,
                gens: mem_addr_comb_gens,
            },
            block_vars_mat: &block_vars_mat,
            block_inputs_mat: &block_inputs_mat,
            exec_inputs_list: &exec_inputs_list,
            block_mems_mat: &block_mems_mat,
            vars_gens,
            proofs_times_vars_gens,
            total_proofs_times_vars_gens,
        };
        prove_input(&inp, &sat, &eval, transcript)
    }
}

/// Whether a proof was accepted, by two checks for its parts, from a
/// transcript with the history `h` to one with `after`.
pub open spec fn snark_accepted<
    P,
    E,
    F: Fn(SatCheck<'_>, &P, Transcript) -> (Result<Challenges, ProofVerifyError>, Transcript),
    H: Fn(EvalCheck<'_>, &E, Transcript) -> (Result<(), ProofVerifyError>, Transcript),
>(
    inp: VerifierInput<'_>,
    h: History,
    sat: F,
    eval: H,
    trace: Seq<CheckTrace>,
    proof: SNARK<P, E>,
    after: History,
) -> bool {
    let c = proof.comms();
    let claim = inp.io_claim();
    &&& trace.len() == NUM_PARTS
    &&& history(trace[0].before) == inp.said_witnesses(h, c)
    &&& parts_checked(
        inp,
        c,
        inp.tau(h, c),
        inp.r(h, c),
        sat,
        eval,
        trace,
        proof.part_proofs(),
        NUM_PARTS as nat,
    )
    &&& verify_claims(
        inp.vars_gens.gens_pc@,
        c.exec_inputs[0],
        log2_up((inp.consis_num_proofs * inp.num_vars) as nat),
        claim,
        proof.io(),
        history(trace[NUM_PARTS - 1].after),
        claim.count(),
    ) == (true, after)
}

/// Whether a proof was refused with an error, and the transcript left where the
/// refusal came: at a part, or at the claims about the input and the output
/// after all parts.
pub open spec fn snark_refused<
    P,
    E,
    F: Fn(SatCheck<'_>, &P, Transcript) -> (Result<Challenges, ProofVerifyError>, Transcript),
    H: Fn(EvalCheck<'_>, &E, Transcript) -> (Result<(), ProofVerifyError>, Transcript),
>(
    inp: VerifierInput<'_>,
    h: History,
    sat: F,
    eval: H,
    trace: Seq<CheckTrace>,
    step: nat,
    proof: SNARK<P, E>,
    e: ProofVerifyError,
    after: History,
) -> bool {
    let c = proof.comms();
    let claim = inp.io_claim();
    let (tau, r) = (inp.tau(h, c), inp.r(h, c));
    &&& trace.len() > 0
    &&& history(trace[0].before) == inp.said_witnesses(h, c)
    &&& {
        ||| {
            &&& parts_refused(inp, c, tau, r, sat, eval, trace, proof.part_proofs(), step, e)
            &&& after == history(trace.last().reached(step))
        }
        ||| {
            &&& trace.len() == NUM_PARTS
            &&& parts_checked(
                inp,
                c,
                tau,
                r,
                sat,
                eval,
                trace,
                proof.part_proofs(),
                NUM_PARTS as nat,
            )
            &&& verify_claims(
                inp.vars_gens.gens_pc@,
                c.exec_inputs[0],
                log2_up((inp.consis_num_proofs * inp.num_vars) as nat),
                claim,
                proof.io(),
                history(trace[NUM_PARTS - 1].after),
                claim.count(),
            ) == (false, after)
            &&& e == ProofVerifyError::InternalError
        }
    }
}

/// Whether a proof has all that a statement calls for.
pub open spec fn snark_shaped<P, E>(inp: VerifierInput<'_>, proof: SNARK<P, E>) -> bool {
    &&& proof_shaped(inp, proof.comms(), proof.part_proofs())
    &&& proof.io().inputs.len() >= inp.io_claim().num_inputs()
    &&& proof.io().outputs.len() >= inp.io_claim().num_inputs()
}

impl<P, E> SNARK<P, E> {
    fn verify_input<
        F: Fn(SatCheck<'_>, &P, Transcript) -> (Result<Challenges, ProofVerifyError>, Transcript),
        H: Fn(EvalCheck<'_>, &E, Transcript) -> (Result<(), ProofVerifyError>, Transcript),
    >(
        &self,
        inp: &VerifierInput<'_>,
        sat: &F,
        eval: &H,
        transcript: &mut Transcript,
    ) -> (res: Result<(), ProofVerifyError>)
        requires
            inp.wf(),
            snark_shaped(*inp, *self),
            sat_check_sound::<P, F>(*sat),
            eval_check_sound::<E, H>(*eval),
        ensures
            match res {
                Ok(_) => exists|trace: Seq<CheckTrace>|
                    snark_accepted(
                        *inp,
                        history(*old(transcript)),
                        *sat,
                        *eval,
                        trace,
                        *self,
                        history(*final(transcript)),
                    ),
                Err(e) => exists|trace: Seq<CheckTrace>, step: nat|
                    snark_refused(
                        *inp,
                        history(*old(transcript)),
                        *sat,
                        *eval,
                        trace,
                        step,
                        *self,
                        e,
                        history(*final(transcript)),
                    ),
            },
    {
        let ghost h = history(*transcript);
        let ghost c = self.comms();
        let mut t = merlin_clone(transcript);
        let (tau, r, input, output) = follow(inp, &self.comms, &mut t);
        let ghost first = t;
        let out = check_parts(inp, &self.comms, &tau, &r, sat, eval, &self.parts, t);
        let ghost trace = out.trace@;
        let mut t = out.t;
        match out.result {
            Ok(_) => {},
            Err(e) => {
                let ghost end = history(t);
                *transcript = t;
                assert(snark_refused(*inp, h, *sat, *eval, trace, out.step@, *self, e, end));
                return Err(e);
            },
        }
        proof {
            assert(self.comms@.exec_inputs[0] == self.comms.exec_inputs@[0]@);
            assert(0 < inp.consis_num_proofs * inp.num_vars <= usize::MAX) by {
                if inp.consis_num_proofs * inp.num_vars == 0 {
                    assert(log2_up(0) == 0);
                }
            }
        }
        let answer = self.io_proof.verify(
            &self.comms.exec_inputs[0],
            inp.num_vars,
            inp.consis_num_proofs,
            Scalar::from_u64(inp.input_block_num as u64),
            Scalar::from_u64(inp.output_block_num as u64),
            &input,
            &output,
            inp.output_block_index,
            inp.input_output_cutoff,
            inp.vars_gens,
            &mut t,
        );
        let ghost end = history(t);
        *transcript = t;
        match answer {
            Ok(_) => {
                assert(snark_accepted(*inp, h, *sat, *eval, trace, *self, end));
                Ok(())
            },
            Err(e) => {
                assert(snark_refused(*inp, h, *sat, *eval, trace, 0, *self, e, end));
                Err(e)
            },
        }
    }

    /// Checks that a program was executed. `sat` checks that the constraints
    /// of a part are satisfied, `eval` checks the values of its matrices; each
    /// hands back the transcript, whether it accepts or refuses. A proof whose
    /// lists are shorter than the statement calls for is not taken. Where the
    /// proof is refused, the transcript is left where the refusal came.
    pub fn verify<
        F: Fn(SatCheck<'_>, &P, Transcript) -> (Result<Challenges, ProofVerifyError>, Transcript),
        H: Fn(EvalCheck<'_>, &E, Transcript) -> (Result<(), ProofVerifyError>, Transcript),
    >(
        &self,
        input_block_num: usize,
        output_block_num: usize,
        input: &Vec<[u8; 32]>,
        output: &Vec<[u8; 32]>,
        output_block_index: usize,
        num_vars: usize,
        input_output_cutoff: usize,
        total_num_proofs_bound: usize,
        block_num_instances: usize,
        block_max_num_proofs_bound: usize,
        block_max_num_proofs: usize,
        block_num_proofs: &Vec<usize>,
        block_num_cons: usize,
        block_comm: &ComputationCommitment,
        block_gens: &SNARKGens,
        consis_num_proofs: usize,
        consis_comb_num_cons: usize,
        consis_comb_comm: &ComputationCommitment,
        consis_comb_gens: &SNARKGens,
        consis_check_num_cons_base: usize,
        consis_check_comm: &ComputationCommitment,
        consis_check_gens: &SNARKGens,
        perm_prelim_num_cons: usize,
        perm_prelim_comm: &ComputationCommitment,
        perm_prelim_gens: &SNARKGens,
        perm_root_num_cons: usize,
        perm_root_comm: &ComputationCommitment,
        perm_root_gens: &SNARKGens,
        perm_poly_num_cons_base: usize,
        perm_block_poly_comm: &ComputationCommitment,
        perm_block_poly_gens: &SNARKGens,
        perm_exec_poly_comm: &ComputationCommitment,
        perm_exec_poly_gens: &SNARKGens,
        mem_extract_num_cons: usize,
        mem_extract_comm: &ComputationCommitment,
        mem_extract_gens: &SNARKGens,
        mem_addr_comb_num_cons: usize,
        mem_addr_comb_comm: &ComputationCommitment,
        mem_addr_comb_gens: &SNARKGens,
        vars_gens: &R1CSGens,
        proofs_times_vars_gens: &R1CSGens,
        total_proofs_times_vars_gens: &R1CSGens,
        sat: F,
        eval: H,
        transcript: &mut Transcript,
    ) -> (res: Result<(), ProofVerifyError>)
        requires
            (VerifierInput {
                input_block_num,
                output_block_num,
                input,
                output,
                output_block_index,
                num_vars,
                input_output_cutoff,
                total_num_proofs_bound,
                block_num_instances,
                block_max_num_proofs_bound,
                block_max_num_proofs,
                block_num_proofs,
                block: PublicProgram {
                    num_cons: block_num_cons,
                    comm: block_comm,
                    gens: block_gens,
                },
                consis_num_proofs,
                consis_comb: PublicProgram {
                    num_cons: consis_comb_num_cons,
                    comm: consis_comb_comm,
                    gens: consis_comb_gens,
                },
                consis_check: PublicProgram {
                    num_cons: consis_check_num_cons_base,
                    comm: consis_check_comm,
                    gens: consis_check_gens,
                },
                perm_prelim: PublicProgram {
                    num_cons: perm_prelim_num_cons,
                    comm: perm_prelim_comm,
                    gens: perm_prelim_gens,
                },
                perm_root: PublicProgram {
                    num_cons: perm_root_num_cons,
                    comm: perm_root_comm,
                    gens: perm_root_gens,
                },
                perm_block_poly: PublicProgram {
                    num_cons: perm_poly_num_cons_base,
                    comm: perm_block_poly_comm,
                    gens: perm_block_poly_gens,
                },
                perm_exec_poly: PublicProgram {
                    num_cons: perm_poly_num_cons_base,
                    comm: perm_exec_poly_comm,
                    gens: perm_exec_poly_gens,
                },
                mem_extract: PublicProgram {
                    num_cons: mem_extract_num_cons,
                    comm: mem_extract_comm,
                    gens: mem_extract_gens,
                },
                mem_addr_comb: PublicProgram {
                    num_cons: mem_addr_comb_num_cons,
                    comm: mem_addr_comb_comm,
                    gens: mem_addr_comb_gens,
                },
                vars_gens,
                proofs_times_vars_gens,
                total_proofs_times_vars_gens,
            }).wf(),
            snark_shaped(
                (VerifierInput {
                    input_block_num,
                    output_block_num,
                    input,
                    output,
                    output_block_index,
                    num_vars,
                    input_output_cutoff,
                    total_num_proofs_bound,
                    block_num_instances,
                    block_max_num_proofs_bound,
                    block_max_num_proofs,
                    block_num_proofs,
                    block: PublicProgram {
                        num_cons: block_num_cons,
                        comm: block_comm,
                        gens: block_gens,
                    },
                    consis_num_proofs,
                    consis_comb: PublicProgram {
                        num_cons: consis_comb_num_cons,
                        comm: consis_comb_comm,
                        gens: consis_comb_gens,
                    },
                    consis_check: PublicProgram {
                        num_cons: consis_check_num_cons_base,
                        comm: consis_check_comm,
                        gens: consis_check_gens,
                    },
                    perm_prelim: PublicProgram {
                        num_cons: perm_prelim_num_cons,
                        comm: perm_prelim_comm,
                        gens: perm_prelim_gens,
                    },
                    perm_root: PublicProgram {
                        num_cons: perm_root_num_cons,
                        comm: perm_root_comm,
                        gens: perm_root_gens,
                    },
                    perm_block_poly: PublicProgram {
                        num_cons: perm_poly_num_cons_base,
                        comm: perm_block_poly_comm,
                        gens: perm_block_poly_gens,
                    },
                    perm_exec_poly: PublicProgram {
                        num_cons: perm_poly_num_cons_base,
                        comm: perm_exec_poly_comm,
                        gens: perm_exec_poly_gens,
                    },
                    mem_extract: PublicProgram {
                        num_cons: mem_extract_num_cons,
                        comm: mem_extract_comm,
                        gens: mem_extract_gens,
                    },
                    mem_addr_comb: PublicProgram {
                        num_cons: mem_addr_comb_num_cons,
                        comm: mem_addr_comb_comm,
                        gens: mem_addr_comb_gens,
                    },
                    vars_gens,
                    proofs_times_vars_gens,
                    total_proofs_times_vars_gens,
                }),
                *self,
            ),
            sat_check_sound::<P, F>(sat),
            eval_check_sound::<E, H>(eval),
        ensures
            ({
                let inp = VerifierInput {
                    input_block_num,
                    output_block_num,
                    input,
                    output,
                    output_block_index,
                    num_vars,
                    input_output_cutoff,
                    total_num_proofs_bound,
                    block_num_instances,
                    block_max_num_proofs_bound,
                    block_max_num_proofs,
                    block_num_proofs,
                    block: PublicProgram {
                        num_cons: block_num_cons,
                        comm: block_comm,
                        gens: block_gens,
                    },
                    consis_num_proofs,
                    consis_comb: PublicProgram {
                        num_cons: consis_comb_num_cons,
                        comm: consis_comb_comm,
                        gens: consis_comb_gens,
                    },
                    consis_check: PublicProgram {
                        num_cons: consis_check_num_cons_base,
                        comm: consis_check_comm,
                        gens: consis_check_gens,
                    },
                    perm_prelim: PublicProgram {
                        num_cons: perm_prelim_num_cons,
                        comm: perm_prelim_comm,
                        gens: perm_prelim_gens,
                    },
                    perm_root: PublicProgram {
                        num_cons: perm_root_num_cons,
                        comm: perm_root_comm,
                        gens: perm_root_gens,
                    },
                    perm_block_poly: PublicProgram {
                        num_cons: perm_poly_num_cons_base,
                        comm: perm_block_poly_comm,
                        gens: perm_block_poly_gens,
                    },
                    perm_exec_poly: PublicProgram {
                        num_cons: perm_poly_num_cons_base,
                        comm: perm_exec_poly_comm,
                        gens: perm_exec_poly_gens,
                    },
                    mem_extract: PublicProgram {
                        num_cons: mem_extract_num_cons,
                        comm: mem_extract_comm,
                        gens: mem_extract_gens,
                    },
                    mem_addr_comb: PublicProgram {
                        num_cons: mem_addr_comb_num_cons,
                        comm: mem_addr_comb_comm,
                        gens: mem_addr_comb_gens,
                    },
                    vars_gens,
                    proofs_times_vars_gens,
                    total_proofs_times_vars_gens,
                };
                match res {
                    Ok(_) => exists|trace: Seq<CheckTrace>|
                        snark_accepted(
                            inp,
                            history(*old(transcript)),
                            sat,
                            eval,
                            trace,
                            *self,
                            history(*final(transcript)),
                        ),
                    Err(e) => exists|trace: Seq<CheckTrace>, step: nat|
                        snark_refused(
                            inp,
                            history(*old(transcript)),
                            sat,
                            eval,
                            trace,
                            step,
                            *self,
                            e,
                            history(*final(transcript)),
                        ),
                }
            }),
    {
        let inp = VerifierInput {
            input_block_num,
            output_block_num,
            input,
            output,
            output_block_index,
            num_vars,
            input_output_cutoff,
            total_num_proofs_bound,
            block_num_instances,
            block_max_num_proofs_bound,
            block_max_num_proofs,
            block_num_proofs,
            block: PublicProgram {
                num_cons: block_num_cons,
                comm: block_comm,
                gens: block_gens,
            },
            consis_num_proofs,
            consis_comb: PublicProgram {
                num_cons: consis_comb_num_cons,
                comm: consis_comb_comm,
                gens: consis_comb_gens,
            },
            consis_check: PublicProgram {
                num_cons: consis_check_num_cons_base,
                comm: consis_check_comm,
                gens: consis_check_gens,
            },
            perm_prelim: PublicProgram {
                num_cons: perm_prelim_num_cons,
                comm: perm_prelim_comm,
                gens: perm_prelim_gens,
            },
            perm_root: PublicProgram {
                num_cons: perm_root_num_cons,
                comm: perm_root_comm,
                gens: perm_root_gens,
            },
            perm_block_poly: PublicProgram {
                num_cons: perm_poly_num_cons_base,
                comm: perm_block_poly_comm,
                gens: perm_block_poly_gens,
            },
            perm_exec_poly: PublicProgram {
                num_cons: perm_poly_num_cons_base,
                comm: perm_exec_poly_comm,
                gens: perm_exec_poly_gens,
            },
            mem_extract: PublicProgram {
                num_cons: mem_extract_num_cons,
                comm: mem_extract_comm,
                gens: mem_extract_gens,
            },
            mem_addr_comb: PublicProgram {
                num_cons: mem_addr_comb_num_cons,
                comm: mem_addr_comb_comm,
                gens: mem_addr_comb_gens,
            },
            vars_gens,
            proofs_times_vars_gens,
            total_proofs_times_vars_gens,
        };
        self.verify_input(&inp, &sat, &eval, transcript)
    }
}

} // verus!
