//! Proofs that the committed execution starts and ends as claimed.
use crate::commitments::Gens;
use crate::dense_mlpoly::{DensePolynomial, PolyCommitment, PolyCommitmentGens};
use crate::errors::ProofVerifyError;
use crate::group::CompressedGroup;
use crate::math::{bits, log2_up, log_2, to_bin_array};
use crate::nizk::DotLog;
use crate::poly_eval::{plain_prove, plain_verify, PolyEvalProof};
use crate::r1csgens::R1CSGens;
use crate::random::RandomTape;
use crate::scalar::{sone, Scalar};
use crate::transcript::{history, History};
use merlin::Transcript;
use vstd::arithmetic::power2::pow2;
use vstd::prelude::*;

verus! {

/// The proofs that committed values match the input and the output of a
/// program.
pub struct IOProofs {
    /// The first executed block is valid.
    pub input_valid_proof: PolyEvalProof,
    /// The last executed block is valid.
    pub output_valid_proof: PolyEvalProof,
    /// The first block has the number that is claimed.
    pub input_block_num_proof: PolyEvalProof,
    /// The block after the last one has the number that is claimed.
    pub output_block_num_proof: PolyEvalProof,
    /// The inputs are those that are claimed.
    pub input_correctness_proof_list: Vec<PolyEvalProof>,
    /// The outputs are those that are claimed.
    pub output_correctness_proof_list: Vec<PolyEvalProof>,
}

/// What `IOProofs` holds.
#[verifier::ext_equal]
pub struct IOProofsView {
    /// That the first block is valid.
    pub input_valid: DotLog,
    /// That the last block is valid.
    pub output_valid: DotLog,
    /// The number of the first block.
    pub input_block_num: DotLog,
    /// The number of the block after the last one.
    pub output_block_num: DotLog,
    /// The inputs.
    pub inputs: Seq<DotLog>,
    /// The outputs.
    pub outputs: Seq<DotLog>,
}

/// The proofs of a list.
pub open spec fn proofs(v: Seq<PolyEvalProof>) -> Seq<DotLog> {
    v.map_values(|p: PolyEvalProof| p@)
}

impl View for IOProofs {
    type V = IOProofsView;

    open spec fn view(&self) -> IOProofsView {
        IOProofsView {
            input_valid: self.input_valid_proof@,
            output_valid: self.output_valid_proof@,
            input_block_num: self.input_block_num_proof@,
            output_block_num: self.output_block_num_proof@,
            inputs: proofs(self.input_correctness_proof_list@),
            outputs: proofs(self.output_correctness_proof_list@),
        }
    }
}

/// What is claimed of an execution: what it starts from and what it ends in.
pub struct IOClaim {
    /// The number of the first block.
    pub input_block_num: Scalar,
    /// The number of the block after the last one.
    pub output_block_num: Scalar,
    /// The inputs.
    pub input: Seq<Scalar>,
    /// The outputs.
    pub output: Seq<Scalar>,
    /// The position of the last block.
    pub output_block_index: nat,
    /// Where the outputs of a block start.
    pub cutoff: nat,
    /// The number of values of a block.
    pub num_vars: nat,
}

impl IOClaim {
    /// The number of inputs, and of outputs.
    pub open spec fn num_inputs(self) -> nat {
        (self.cutoff - 2) as nat
    }

    /// The first position of the last block.
    pub open spec fn output_at(self) -> nat {
        self.output_block_index * self.num_vars
    }

    /// The `k`-th claim: a position of the committed execution, and the value
    /// there. The first block is valid, so is the last one, their numbers are
    /// the ones claimed, and then inputs and outputs take turns.
    pub open spec fn at(self, k: int) -> (nat, Scalar) {
        if k == 0 {
            (0, sone())
        } else if k == 1 {
            (self.output_at(), sone())
        } else if k == 2 {
            (1, self.input_block_num)
        } else if k == 3 {
            (self.output_at() + self.cutoff + 1, self.output_block_num)
        } else if k % 2 == 0 {
            (2 + ((k - 4) / 2) as nat, self.input[(k - 4) / 2])
        } else {
            (self.output_at() + self.cutoff + 2 + ((k - 4) / 2) as nat, self.output[(k - 4) / 2])
        }
    }

    /// The number of claims.
    pub open spec fn count(self) -> nat {
        4 + 2 * self.num_inputs()
    }

    /// The sizes agree, and the positions are machine numbers.
    pub open spec fn wf(self) -> bool {
        &&& self.cutoff >= 2
        &&& 2 * self.num_inputs() + 2 <= self.num_vars
        &&& self.input.len() >= self.num_inputs()
        &&& self.output.len() >= self.num_inputs()
        &&& self.output_at() + self.cutoff + 2 + self.num_inputs() <= usize::MAX
    }
}

/// The proofs of the first `k` claims, and the transcript and the tape after
/// them.
pub open spec fn prove_claims(
    gens: (Gens, Gens),
    z: Seq<Scalar>,
    len: nat,
    claim: IOClaim,
    th: History,
    rh: History,
    k: nat,
) -> (Seq<DotLog>, History, History)
    decreases k,
{
    if k == 0 {
        (Seq::empty(), th, rh)
    } else {
        let (ps, th1, rh1) = prove_claims(gens, z, len, claim, th, rh, (k - 1) as nat);
        let (x, v) = claim.at(k - 1);
        let out = plain_prove(gens, z, bits(x, len), v, th1, rh1);
        (ps.push(out.proof), out.th, out.rh)
    }
}

/// Whether proofs are those of all claims, and the transcript after them is
/// the given one.
pub open spec fn claims_proved(
    gens: (Gens, Gens),
    z: Seq<Scalar>,
    len: nat,
    claim: IOClaim,
    th: History,
    rh: History,
    p: IOProofsView,
    after: History,
) -> bool {
    let (ps, th1, rh1) = prove_claims(gens, z, len, claim, th, rh, claim.count());
    &&& ps.len() == claim.count()
    &&& p.inputs.len() == claim.num_inputs()
    &&& p.outputs.len() == claim.num_inputs()
    &&& forall|k: int| 0 <= k < claim.count() ==> #[trigger] proof_at(p, k) == ps[k]
    &&& after == th1
}

/// The proof of the `k`-th claim.
pub open spec fn proof_at(p: IOProofsView, k: int) -> DotLog {
    if k == 0 {
        p.input_valid
    } else if k == 1 {
        p.output_valid
    } else if k == 2 {
        p.input_block_num
    } else if k == 3 {
        p.output_block_num
    } else if k % 2 == 0 {
        p.inputs[(k - 4) / 2]
    } else {
        p.outputs[(k - 4) / 2]
    }
}

/// Whether the proofs of the first `k` claims hold, and the transcript after
/// them, or after the first one that does not hold.
pub open spec fn verify_claims(
    gens: (Gens, Gens),
    comm: Seq<CompressedGroup>,
    len: nat,
    claim: IOClaim,
    p: IOProofsView,
    th: History,
    k: nat,
) -> (bool, History)
    decreases k,
{
    if k == 0 {
        (true, th)
    } else {
        let (held, th1) = verify_claims(gens, comm, len, claim, p, th, (k - 1) as nat);
        let (x, v) = claim.at(k - 1);
        if held {
            plain_verify(gens, bits(x, len), v, comm, proof_at(p, k - 1), th1)
        } else {
            (false, th1)
        }
    }
}

/// A refused claim ends the check.
proof fn lemma_refused(
    gens: (Gens, Gens),
    comm: Seq<CompressedGroup>,
    len: nat,
    claim: IOClaim,
    p: IOProofsView,
    th: History,
    j: nat,
    k: nat,
)
    requires
        j <= k,
        !verify_claims(gens, comm, len, claim, p, th, j).0,
    ensures
        verify_claims(gens, comm, len, claim, p, th, k) == verify_claims(
            gens,
            comm,
            len,
            claim,
            p,
            th,
            j,
        ),
    decreases k,
{
    if j < k {
        lemma_refused(gens, comm, len, claim, p, th, j, (k - 1) as nat);
    }
}

fn prove_at(
    poly: &DensePolynomial,
    at: usize,
    len: usize,
    value: &Scalar,
    gens: &PolyCommitmentGens,
    t: &mut Transcript,
    tape: &mut RandomTape,
) -> (r: PolyEvalProof)
    requires
        poly@.len() == pow2(len as nat),
        gens.fits(len as nat),
    ensures
        ({
            let out = plain_prove(
                gens@,
                poly@,
                bits(at as nat, len as nat),
                *value,
                history(*old(t)),
                old(tape)@,
            );
            &&& r@ == out.proof
            &&& history(*final(t)) == out.th
            &&& final(tape)@ == out.rh
        }),
{
    proof {
        reveal(plain_prove);
    }
    let point = to_bin_array(at, len);
    let (proof, _comm) = PolyEvalProof::prove(poly, None, &point, value, None, gens, t, tape);
    proof
}

fn verify_at(
    proof: &PolyEvalProof,
    comm: &PolyCommitment,
    at: usize,
    len: usize,
    value: &Scalar,
    gens: &PolyCommitmentGens,
    t: &mut Transcript,
) -> (r: Result<(), ProofVerifyError>)
    requires
        gens.fits(len as nat),
    ensures
        ({
            let (holds, th) = plain_verify(
                gens@,
                bits(at as nat, len as nat),
                *value,
                comm@,
                proof@,
                history(*old(t)),
            );
            &&& r is Ok <==> holds
            &&& history(*final(t)) == th
        }),
{
    let point = to_bin_array(at, len);
    proof.verify_plain(gens, t, &point, value, comm)
}

impl IOProofs {
    /// Proves the claims about the execution with values `exec_poly_inputs`.
    pub fn prove(
        exec_poly_inputs: &DensePolynomial,
        num_vars: usize,
        num_proofs: usize,
        input_block_num: Scalar,
        output_block_num: Scalar,
        input: &Vec<Scalar>,
        output: &Vec<Scalar>,
        output_block_index: usize,
        input_output_cutoff: usize,
        vars_gens: &R1CSGens,
        transcript: &mut Transcript,
        random_tape: &mut RandomTape,
    ) -> (r: IOProofs)
        requires
            0 < num_proofs * num_vars <= usize::MAX,
            (IOClaim {
                input_block_num,
                output_block_num,
                input: input@,
                output: output@,
                output_block_index: output_block_index as nat,
                cutoff: input_output_cutoff as nat,
                num_vars: num_vars as nat,
            }).wf(),
            exec_poly_inputs@.len() == pow2(log2_up((num_proofs * num_vars) as nat)),
            vars_gens.gens_pc.fits(log2_up((num_proofs * num_vars) as nat)),
        ensures
            ({
                let claim = IOClaim {
                    input_block_num,
                    output_block_num,
                    input: input@,
                    output: output@,
                    output_block_index: output_block_index as nat,
                    cutoff: input_output_cutoff as nat,
                    num_vars: num_vars as nat,
                };
                let (ps, th, rh) = prove_claims(
                    vars_gens.gens_pc@,
                    exec_poly_inputs@,
                    log2_up((num_proofs * num_vars) as nat),
                    claim,
                    history(*old(transcript)),
                    old(random_tape)@,
                    claim.count(),
                );
                &&& ps.len() == claim.count()
                &&& r@.inputs.len() == claim.num_inputs()
                &&& r@.outputs.len() == claim.num_inputs()
                &&& forall|k: int| 0 <= k < claim.count() ==> #[trigger] proof_at(r@, k) == ps[k]
                &&& history(*final(transcript)) == th
                &&& final(random_tape)@ == rh
            }),
    {
        let ghost claim = IOClaim {
            input_block_num,
            output_block_num,
            input: input@,
            output: output@,
            output_block_index: output_block_index as nat,
            cutoff: input_output_cutoff as nat,
            num_vars: num_vars as nat,
        };
        let ghost th0 = history(*transcript);
        let ghost rh0 = random_tape@;
        let ghost z = exec_poly_inputs@;
        let num_inputs: usize = input_output_cutoff - 2;
        let r_len = log_2(num_proofs * num_vars);
        let gens = &vars_gens.gens_pc;
        let one = Scalar::one();
        proof {
            reveal_with_fuel(prove_claims, 5);
            lemma_product_bound(claim);
        }
        let at = output_block_index * num_vars;
        let input_valid_proof = prove_at(
            exec_poly_inputs,
            0,
            r_len,
            &one,
            gens,
            transcript,
            random_tape,
        );
        let output_valid_proof = prove_at(
            exec_poly_inputs,
            at,
            r_len,
            &one,
            gens,
            transcript,
            random_tape,
        );
        let input_block_num_proof = prove_at(
            exec_poly_inputs,
            1,
            r_len,
            &input_block_num,
            gens,
            transcript,
            random_tape,
        );
        let output_block_num_proof = prove_at(
            exec_poly_inputs,
            at + input_output_cutoff + 1,
            r_len,
            &output_block_num,
            gens,
            transcript,
            random_tape,
        );
        let mut inputs: Vec<PolyEvalProof> = Vec::new();
        let mut outputs: Vec<PolyEvalProof> = Vec::new();
        let ghost mut ps: Seq<DotLog> = seq![
            input_valid_proof@,
            output_valid_proof@,
            input_block_num_proof@,
            output_block_num_proof@,
        ];
        assert(ps =~= Seq::<DotLog>::empty().push(input_valid_proof@).push(
            output_valid_proof@,
        ).push(input_block_num_proof@).push(output_block_num_proof@));
        assert((ps, history(*transcript), random_tape@) == prove_claims(
            gens@,
            z,
            r_len as nat,
            claim,
            th0,
            rh0,
            4,
        ));
        let mut i: usize = 0;
        while i < num_inputs
            invariant
                i <= num_inputs,
                claim.wf(),
                claim.num_inputs() == num_inputs,
                claim.cutoff == input_output_cutoff,
                claim.output_at() == at,
                claim.input == input@,
                claim.output == output@,
                gens == vars_gens.gens_pc,
                gens.fits(r_len as nat),
                z == exec_poly_inputs@,
                z.len() == pow2(r_len as nat),
                inputs@.len() == i,
                outputs@.len() == i,
                ps.len() == 4 + 2 * i,
                ps[0] == input_valid_proof@,
                ps[1] == output_valid_proof@,
                ps[2] == input_block_num_proof@,
                ps[3] == output_block_num_proof@,
                forall|j: int| 0 <= j < i ==> ps[4 + 2 * j] == (#[trigger] inputs@[j])@,
                forall|j: int| 0 <= j < i ==> ps[5 + 2 * j] == (#[trigger] outputs@[j])@,
                (ps, history(*transcript), random_tape@) == prove_claims(
                    gens@,
                    z,
                    r_len as nat,
                    claim,
                    th0,
                    rh0,
                    4 + 2 * i as nat,
                ),
            decreases num_inputs - i,
        {
            proof {
                reveal_with_fuel(prove_claims, 3);
                lemma_turns(i as int);
            }
            let a = prove_at(
                exec_poly_inputs,
                2 + i,
                r_len,
                &input[i],
                gens,
                transcript,
                random_tape,
            );
            let b = prove_at(
                exec_poly_inputs,
                at + input_output_cutoff + 2 + i,
                r_len,
                &output[i],
                gens,
                transcript,
                random_tape,
            );
            proof {
                ps = ps.push(a@).push(b@);
            }
            inputs.push(a);
            outputs.push(b);
            i += 1;
        }
        let r = IOProofs {
            input_valid_proof,
            output_valid_proof,
            input_block_num_proof,
            output_block_num_proof,
            input_correctness_proof_list: inputs,
            output_correctness_proof_list: outputs,
        };
        assert forall|k: int| 0 <= k < claim.count() implies #[trigger] proof_at(r@, k) == ps[k] by {
            if k >= 4 {
                let j = (k - 4) / 2;
                if k % 2 == 0 {
                    assert(ps[4 + 2 * j] == inputs@[j]@);
                } else {
                    assert(ps[5 + 2 * j] == outputs@[j]@);
                }
            }
        }
        r
    }

    /// Checks the claims about the execution that `comm_poly_inputs` commits
    /// to. A proof with fewer inputs or outputs than claimed is not taken.
    pub fn verify(
        &self,
        comm_poly_inputs: &PolyCommitment,
        num_vars: usize,
        num_proofs: usize,
        input_block_num: Scalar,
        output_block_num: Scalar,
        input: &Vec<Scalar>,
        output: &Vec<Scalar>,
        output_block_index: usize,
        input_output_cutoff: usize,
        vars_gens: &R1CSGens,
        transcript: &mut Transcript,
    ) -> (r: Result<(), ProofVerifyError>)
        requires
            0 < num_proofs * num_vars <= usize::MAX,
            (IOClaim {
                input_block_num,
                output_block_num,
                input: input@,
                output: output@,
                output_block_index: output_block_index as nat,
                cutoff: input_output_cutoff as nat,
                num_vars: num_vars as nat,
            }).wf(),
            vars_gens.gens_pc.fits(log2_up((num_proofs * num_vars) as nat)),
            self@.inputs.len() >= input_output_cutoff - 2,
            self@.outputs.len() >= input_output_cutoff - 2,
        ensures
            ({
                let claim = IOClaim {
                    input_block_num,
                    output_block_num,
                    input: input@,
                    output: output@,
                    output_block_index: output_block_index as nat,
                    cutoff: input_output_cutoff as nat,
                    num_vars: num_vars as nat,
                };
                let (holds, th) = verify_claims(
                    vars_gens.gens_pc@,
                    comm_poly_inputs@,
                    log2_up((num_proofs * num_vars) as nat),
                    claim,
                    self@,
                    history(*old(transcript)),
                    claim.count(),
                );
                &&& r is Ok <==> holds
                &&& r matches Err(e) ==> e == ProofVerifyError::InternalError
                &&& history(*final(transcript)) == th
            }),
    {
        let ghost claim = IOClaim {
            input_block_num,
            output_block_num,
            input: input@,
            output: output@,
            output_block_index: output_block_index as nat,
            cutoff: input_output_cutoff as nat,
            num_vars: num_vars as nat,
        };
        let ghost th0 = history(*transcript);
        let num_inputs: usize = input_output_cutoff - 2;
        let r_len = log_2(num_proofs * num_vars);
        let gens = &vars_gens.gens_pc;
        let comm = comm_poly_inputs;
        let ghost count = claim.count();
        proof {
            lemma_product_bound(claim);
            reveal_with_fuel(verify_claims, 5);
        }
        let at = output_block_index * num_vars;
        let one = Scalar::one();
        if verify_at(&self.input_valid_proof, comm, 0, r_len, &one, gens, transcript).is_err() {
            proof {
                lemma_refused(gens@, comm@, r_len as nat, claim, self@, th0, 1, count);
            }
            return Err(ProofVerifyError::InternalError);
        }
        if verify_at(&self.output_valid_proof, comm, at, r_len, &one, gens, transcript).is_err() {
            proof {
                lemma_refused(gens@, comm@, r_len as nat, claim, self@, th0, 2, count);
            }
            return Err(ProofVerifyError::InternalError);
        }
        if verify_at(
            &self.input_block_num_proof,
            comm,
            1,
            r_len,
            &input_block_num,
            gens,
            transcript,
        ).is_err() {
            proof {
                lemma_refused(gens@, comm@, r_len as nat, claim, self@, th0, 3, count);
            }
            return Err(ProofVerifyError::InternalError);
        }
        if verify_at(
            &self.output_block_num_proof,
            comm,
            at + input_output_cutoff + 1,
            r_len,
            &output_block_num,
            gens,
            transcript,
        ).is_err() {
            proof {
                lemma_refused(gens@, comm@, r_len as nat, claim, self@, th0, 4, count);
            }
            return Err(ProofVerifyError::InternalError);
        }
        let mut i: usize = 0;
        while i < num_inputs
            invariant
                i <= num_inputs,
                claim.wf(),
                claim.num_inputs() == num_inputs,
                claim.cutoff == input_output_cutoff,
                claim.output_at() == at,
                claim.input == input@,
                claim.output == output@,
                count == claim.count(),
                r_len == log2_up((num_proofs * num_vars) as nat),
                th0 == history(*old(transcript)),
                claim == (IOClaim {
                    input_block_num,
                    output_block_num,
                    input: input@,
                    output: output@,
                    output_block_index: output_block_index as nat,
                    cutoff: input_output_cutoff as nat,
                    num_vars: num_vars as nat,
                }),
                comm == comm_poly_inputs,
                gens == vars_gens.gens_pc,
                gens.fits(r_len as nat),
                self@.inputs.len() >= num_inputs,
                self@.outputs.len() >= num_inputs,
                verify_claims(gens@, comm@, r_len as nat, claim, self@, th0, 4 + 2 * i as nat) == (
                    true,
                    history(*transcript),
                ),
            decreases num_inputs - i,
        {
            proof {
                reveal_with_fuel(verify_claims, 3);
                lemma_turns(i as int);
            }
            if verify_at(
                &self.input_correctness_proof_list[i],
                comm,
                2 + i,
                r_len,
                &input[i],
                gens,
                transcript,
            ).is_err() {
                proof {
                    lemma_refused(
                        gens@,
                        comm@,
                        r_len as nat,
                        claim,
                        self@,
                        th0,
                        5 + 2 * i as nat,
                        count,
                    );
                }
                return Err(ProofVerifyError::InternalError);
            }
            if verify_at(
                &self.output_correctness_proof_list[i],
                comm,
                at + input_output_cutoff + 2 + i,
                r_len,
                &output[i],
                gens,
                transcript,
            ).is_err() {
                proof {
                    lemma_refused(
                        gens@,
                        comm@,
                        r_len as nat,
                        claim,
                        self@,
                        th0,
                        6 + 2 * i as nat,
                        count,
                    );
                }
                return Err(ProofVerifyError::InternalError);
            }
            i += 1;
        }
        Ok(())
    }
}

proof fn lemma_turns(i: int)
    ensures
        (4 + 2 * i) % 2 == 0,
        (5 + 2 * i) % 2 == 1,
        (4 + 2 * i - 4) / 2 == i,
        (5 + 2 * i - 4) / 2 == i,
{
}

proof fn lemma_product_bound(claim: IOClaim)
    requires
        claim.wf(),
    ensures
        0 <= claim.output_block_index * claim.num_vars <= usize::MAX,
{
}

} // verus!
