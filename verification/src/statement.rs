//! What is proved of a program: its sizes, its parts and its assignments.
use crate::commitments::Gens;
use crate::committed::{said_matrices, said_matrix, said_pairs};
use crate::instance::{
    all_canonical, decoded_list, Assignment, ComputationCommitment, ComputationDecommitment,
    Instance, SNARKGens,
};
use crate::io_proofs::IOClaim;
use crate::jobs::SatTask;
use crate::math::{is_pow2, log2_up};
use crate::openings::{corner, Opening};
use crate::r1csgens::R1CSGens;
use crate::r1csinstance::R1CS;
use crate::scalar::Scalar;
use crate::sparse_mlpoly::{said_instance, InstanceCommitment};
use crate::transcript::{challenge, drawn, named, said, said_vector, History};
use crate::vectors::{flat, repeated};
use crate::witness::{
    all_wide, consistency_rows, half_weighted_rows, memory_rows, permutation_rows, shared_row,
    weighted_mats, weighted_rows,
};
use vstd::prelude::*;
use vstd::string::StringSliceAdditionalSpecFns;

verus! {

/// A part of the proof: that blocks are correct.
pub const BLOCK: usize = 0;

/// A part of the proof: the combinations of inputs and outputs.
pub const CONSIS_COMB: usize = 1;

/// A part of the proof: that the output of a block is the input of the next.
pub const CONSIS_CHECK: usize = 2;

/// A part of the proof: the shared witness.
pub const PERM_PRELIM: usize = 3;

/// A part of the proof: the factors of blocks.
pub const PERM_BLOCK_ROOT: usize = 4;

/// A part of the proof: the product of the factors of blocks.
pub const PERM_BLOCK_POLY: usize = 5;

/// A part of the proof: the factors of the execution.
pub const PERM_EXEC_ROOT: usize = 6;

/// A part of the proof: the product of the factors of the execution.
pub const PERM_EXEC_POLY: usize = 7;

/// A part of the proof: the accesses to memory.
pub const MEM_EXTRACT: usize = 8;

/// A part of the proof: the product of the accesses to memory.
pub const MEM_BLOCK_POLY: usize = 9;

/// The number of parts.
pub const NUM_PARTS: usize = 10;

/// The constraints of a part, with what commits to them.
pub struct Program<'a> {
    /// The constraints.
    pub inst: &'a Instance,
    /// The commitment to them.
    pub comm: &'a ComputationCommitment,
    /// What opens the commitment.
    pub decomm: &'a ComputationDecommitment,
    /// The generators.
    pub gens: &'a SNARKGens,
}

/// What is proved, and the assignments that prove it.
pub struct ProverInput<'a> {
    /// The number of the first block.
    pub input_block_num: usize,
    /// The number of the block after the last one.
    pub output_block_num: usize,
    /// The inputs of the program.
    pub input: &'a Vec<[u8; 32]>,
    /// The outputs of the program.
    pub output: &'a Vec<[u8; 32]>,
    /// The position of the last block.
    pub output_block_index: usize,
    /// The number of values of a section.
    pub num_vars: usize,
    /// Where the outputs of a block start.
    pub input_output_cutoff: usize,
    /// The largest number of executed blocks that constraints are made for.
    pub total_num_proofs_bound: usize,
    /// The number of blocks.
    pub block_num_instances: usize,
    /// The largest number of executions of a block that constraints are made
    /// for.
    pub block_max_num_proofs_bound: usize,
    /// The largest number of executions of a block.
    pub block_max_num_proofs: usize,
    /// The numbers of executions of the blocks.
    pub block_num_proofs: &'a Vec<usize>,
    /// The constraints of the blocks.
    pub block: Program<'a>,
    /// The number of executed blocks.
    pub consis_num_proofs: usize,
    /// The constraints of the combinations of inputs and outputs.
    pub consis_comb: Program<'a>,
    /// The number of constraints for one executed block in the consistency
    /// check.
    pub consis_check_num_cons_base: usize,
    /// The constraints of the consistency check.
    pub consis_check: Program<'a>,
    /// The constraints of the shared witness.
    pub perm_prelim: Program<'a>,
    /// The constraints of the factors.
    pub perm_root: Program<'a>,
    /// The number of constraints for one row in a product.
    pub perm_poly_num_cons_base: usize,
    /// The constraints of the products of blocks.
    pub perm_block_poly: Program<'a>,
    /// The constraints of the product of the execution.
    pub perm_exec_poly: Program<'a>,
    /// The numbers of accesses to memory of the blocks.
    pub block_num_mem_accesses: &'a Vec<usize>,
    /// The constraints of the accesses to memory.
    pub mem_extract: Program<'a>,
    /// The constraints of the combinations of addresses.
    pub mem_addr_comb: Program<'a>,
    /// The variables of the executions of the blocks.
    pub block_vars_mat: &'a Vec<Vec<Assignment>>,
    /// The inputs and outputs of the executions of the blocks.
    pub block_inputs_mat: &'a Vec<Vec<Assignment>>,
    /// The inputs and outputs in the order of execution.
    pub exec_inputs_list: &'a Vec<Assignment>,
    /// The accesses to memory of the executions of the blocks.
    pub block_mems_mat: &'a Vec<Vec<Assignment>>,
    /// Generators for witnesses.
    pub vars_gens: &'a R1CSGens,
    /// Generators for the witness of a block as a whole.
    pub proofs_times_vars_gens: &'a R1CSGens,
    /// Generators for the witness of the execution as a whole.
    pub total_proofs_times_vars_gens: &'a R1CSGens,
}

/// The rows of a list of assignments.
pub open spec fn assignment_rows(v: Seq<Assignment>) -> Seq<Seq<Scalar>> {
    v.map_values(|a: Assignment| a@)
}

/// The rows of lists of assignments.
pub open spec fn assignment_mats(v: Seq<Vec<Assignment>>) -> Seq<Seq<Seq<Scalar>>> {
    v.map_values(|l: Vec<Assignment>| assignment_rows(l@))
}

/// The matrices of all witnesses.
#[verifier::ext_equal]
pub struct WitnessMats {
    /// The variables of the blocks.
    pub block_vars: Seq<Seq<Seq<Scalar>>>,
    /// The inputs and outputs of the blocks.
    pub block_inputs: Seq<Seq<Seq<Scalar>>>,
    /// The inputs and outputs in the order of execution.
    pub exec_inputs: Seq<Seq<Seq<Scalar>>>,
    /// The shared witness.
    pub perm_w0: Seq<Seq<Seq<Scalar>>>,
    /// The weighted rows of the blocks.
    pub perm_block_w2: Seq<Seq<Seq<Scalar>>>,
    /// The accumulators of the blocks.
    pub perm_block_w3: Seq<Seq<Seq<Scalar>>>,
    /// The weighted rows of the execution.
    pub perm_exec_w2: Seq<Seq<Seq<Scalar>>>,
    /// The accumulator of the execution.
    pub perm_exec_w3: Seq<Seq<Seq<Scalar>>>,
    /// The weighted halves of the rows of the execution.
    pub consis_w2: Seq<Seq<Seq<Scalar>>>,
    /// The combinations of the halves.
    pub consis_w3: Seq<Seq<Seq<Scalar>>>,
    /// The accesses to memory and their accumulators.
    pub mem_block_w1: Seq<Seq<Seq<Scalar>>>,
}

/// The history after numbers, each as a scalar, under one label.
pub open spec fn said_counts(h: History, label: Seq<char>, s: Seq<usize>, k: nat) -> History
    decreases k,
{
    if k == 0 {
        h
    } else {
        said(
            said_counts(h, label, s, (k - 1) as nat),
            label,
            Scalar::of(s[k - 1] as nat).encoding(),
        )
    }
}

/// The history after the public part of a statement: the name of the
/// protocol, the commitments to the constraints, inputs and outputs, and the
/// numbers of executions.
pub open spec fn said_statement(
    h: History,
    programs: Seq<InstanceCommitment>,
    input_block_num: nat,
    output_block_num: nat,
    input: Seq<Scalar>,
    output: Seq<Scalar>,
    block_max_num_proofs: nat,
    block_num_proofs: Seq<usize>,
) -> History {
    let h1 = said_programs(named(h, "Spartan SNARK proof"), programs, programs.len());
    let h2 = said(h1, "input_block_num"@, Scalar::of(input_block_num).encoding());
    let h3 = said(h2, "output_block_num"@, Scalar::of(output_block_num).encoding());
    let h4 = said_vector(said_vector(h3, "input_list"@, input), "output_list"@, output);
    let h5 = said(h4, "block_max_num_proofs"@, Scalar::of(block_max_num_proofs).encoding());
    said_counts(h5, "block_num_proofs"@, block_num_proofs, block_num_proofs.len())
}

/// The history after the first `k` commitments to constraints.
pub open spec fn said_programs(h: History, programs: Seq<InstanceCommitment>, k: nat) -> History
    decreases k,
{
    if k == 0 {
        h
    } else {
        said_instance(said_programs(h, programs, (k - 1) as nat), programs[k - 1])
    }
}

impl<'a> ProverInput<'a> {
    /// The commitments to the constraints, in the order in which they are
    /// said.
    pub open spec fn programs(self) -> Seq<InstanceCommitment> {
        seq![
            self.block.comm@,
            self.consis_comb.comm@,
            self.consis_check.comm@,
            self.perm_prelim.comm@,
            self.perm_root.comm@,
            self.perm_block_poly.comm@,
            self.perm_exec_poly.comm@,
            self.mem_extract.comm@,
            self.mem_addr_comb.comm@,
        ]
    }

    /// The generators of the commitments to witnesses.
    pub open spec fn g(self) -> Gens {
        self.vars_gens.gens_pc@.0
    }

    /// The variables of the blocks.
    pub open spec fn vars(self) -> Seq<Seq<Seq<Scalar>>> {
        assignment_mats(self.block_vars_mat@.take(self.block_num_instances as int))
    }

    /// The inputs and outputs of the blocks.
    pub open spec fn inputs(self) -> Seq<Seq<Seq<Scalar>>> {
        assignment_mats(self.block_inputs_mat@.take(self.block_num_instances as int))
    }

    /// The inputs and outputs in the order of execution.
    pub open spec fn exec(self) -> Seq<Seq<Scalar>> {
        assignment_rows(self.exec_inputs_list@)
    }

    /// The accesses to memory.
    pub open spec fn mems(self) -> Seq<Seq<Seq<Scalar>>> {
        assignment_mats(self.block_mems_mat@.take(self.block_num_instances as int))
    }

    /// The history after the statement and the commitments to the
    /// assignments.
    pub open spec fn said_assignments(self, h: History) -> History {
        let h1 = said_statement(
            h,
            self.programs(),
            self.input_block_num as nat,
            self.output_block_num as nat,
            decoded_list(self.input@),
            decoded_list(self.output@),
            self.block_max_num_proofs as nat,
            self.block_num_proofs@,
        );
        let h2 = said_pairs(
            h1,
            self.vars(),
            self.inputs(),
            self.g(),
            self.block_num_instances as nat,
        );
        said_matrix(h2, self.exec(), self.g())
    }

    /// The challenge that a row is measured against.
    pub open spec fn tau(self, h: History) -> Scalar {
        challenge(self.said_assignments(h), "challenge_tau"@)
    }

    /// The challenge whose powers weigh the values of a row.
    pub open spec fn r(self, h: History) -> Scalar {
        challenge(drawn(self.said_assignments(h), "challenge_tau"@), "challenge_r"@)
    }

    /// The witnesses under two challenges.
    pub open spec fn witnesses(self, tau: Scalar, r: Scalar) -> WitnessMats {
        let n = self.num_vars as nat;
        let exec_n = self.consis_num_proofs as nat;
        let cutoff = self.input_output_cutoff as nat;
        WitnessMats {
            block_vars: self.vars(),
            block_inputs: self.inputs(),
            exec_inputs: seq![self.exec()],
            perm_w0: seq![seq![shared_row(tau, r, n)]],
            perm_block_w2: weighted_mats(self.inputs(), r),
            perm_block_w3: Seq::new(
                self.block_num_instances as nat,
                |p: int|
                    permutation_rows(
                        self.inputs()[p],
                        self.block_num_proofs@[p] as nat,
                        tau,
                        r,
                        n,
                    ),
            ),
            perm_exec_w2: seq![weighted_rows(self.exec(), r)],
            perm_exec_w3: seq![permutation_rows(self.exec(), exec_n, tau, r, n)],
            consis_w2: seq![half_weighted_rows(self.exec(), exec_n, r, cutoff, n)],
            consis_w3: seq![consistency_rows(self.exec(), exec_n, r, cutoff, n)],
            mem_block_w1: Seq::new(
                self.block_num_instances as nat,
                |p: int|
                    memory_rows(
                        self.inputs()[p],
                        self.mems()[p],
                        self.block_num_proofs@[p] as nat,
                        tau,
                        r,
                        self.block_num_mem_accesses@[p] as nat,
                        n,
                    ),
            ),
        }
    }

    /// The history after the commitments to all witnesses.
    pub open spec fn said_witnesses(self, h: History) -> History {
        let h0 = drawn(drawn(self.said_assignments(h), "challenge_tau"@), "challenge_r"@);
        let w = self.witnesses(self.tau(h), self.r(h));
        let n = self.block_num_instances as nat;
        let h1 = said_matrix(h0, w.perm_w0[0], self.g());
        let h2 = said_pairs(h1, w.perm_block_w2, w.perm_block_w3, self.g(), n);
        let h3 = said_matrix(
            said_matrix(h2, w.perm_exec_w2[0], self.g()),
            w.perm_exec_w3[0],
            self.g(),
        );
        let h4 = said_matrix(said_matrix(h3, w.consis_w2[0], self.g()), w.consis_w3[0], self.g());
        said_matrices(h4, w.mem_block_w1, self.g(), n)
    }

    /// The constraints of a part.
    pub open spec fn program(self, s: int) -> Program<'a> {
        if s == BLOCK {
            self.block
        } else if s == CONSIS_COMB {
            self.consis_comb
        } else if s == CONSIS_CHECK {
            self.consis_check
        } else if s == PERM_PRELIM {
            self.perm_prelim
        } else if s == PERM_BLOCK_ROOT || s == PERM_EXEC_ROOT {
            self.perm_root
        } else if s == PERM_BLOCK_POLY || s == MEM_BLOCK_POLY {
            self.perm_block_poly
        } else if s == PERM_EXEC_POLY {
            self.perm_exec_poly
        } else {
            self.mem_extract
        }
    }

    /// What is asked of the proof of satisfiability of a part.
    pub open spec fn task(self, w: WitnessMats, s: int) -> SatTask {
        let n = self.num_vars as nat;
        let exec_n = seq![self.consis_num_proofs];
        let blocks = self.block_num_instances as nat;
        let batch = SatTask {
            batch: true,
            num_shared: 1,
            num_instances: blocks,
            num_cons_base: 0,
            max_num_proofs: self.block_max_num_proofs as nat,
            num_proofs: self.block_num_proofs@,
            num_vars: n,
            inst: self.program(s).inst@,
            gens: *self.vars_gens,
            secs: seq![],
        };
        if s == BLOCK {
            SatTask { num_shared: 0, secs: seq![w.block_vars, w.block_inputs], ..batch }
        } else if s == CONSIS_COMB {
            SatTask {
                num_instances: 1,
                max_num_proofs: self.consis_num_proofs as nat,
                num_proofs: exec_n,
                secs: seq![w.perm_w0, w.exec_inputs, w.consis_w2, w.consis_w3],
                ..batch
            }
        } else if s == CONSIS_CHECK {
            SatTask {
                batch: false,
                num_shared: 0,
                num_instances: 1,
                num_cons_base: self.consis_check_num_cons_base as nat,
                max_num_proofs: self.total_num_proofs_bound as nat,
                num_proofs: exec_n,
                gens: *self.total_proofs_times_vars_gens,
                secs: seq![w.consis_w3],
                ..batch
            }
        } else if s == PERM_PRELIM {
            SatTask {
                num_shared: 0,
                num_instances: 1,
                max_num_proofs: 1,
                num_proofs: seq![1usize],
                secs: seq![w.perm_w0],
                ..batch
            }
        } else if s == PERM_BLOCK_ROOT {
            SatTask {
                secs: seq![w.perm_w0, w.block_inputs, w.perm_block_w2, w.perm_block_w3],
                ..batch
            }
        } else if s == PERM_BLOCK_POLY {
            SatTask {
                batch: false,
                num_shared: 0,
                num_cons_base: self.perm_poly_num_cons_base as nat,
                max_num_proofs: self.block_max_num_proofs_bound as nat,
                gens: *self.proofs_times_vars_gens,
                secs: seq![w.perm_block_w3],
                ..batch
            }
        } else if s == PERM_EXEC_ROOT {
            SatTask {
                num_instances: 1,
                max_num_proofs: self.consis_num_proofs as nat,
                num_proofs: exec_n,
                secs: seq![w.perm_w0, w.exec_inputs, w.perm_exec_w2, w.perm_exec_w3],
                ..batch
            }
        } else if s == PERM_EXEC_POLY {
            SatTask {
                batch: false,
                num_shared: 0,
                num_instances: 1,
                num_cons_base: self.perm_poly_num_cons_base as nat,
                max_num_proofs: self.total_num_proofs_bound as nat,
                num_proofs: exec_n,
                gens: *self.total_proofs_times_vars_gens,
                secs: seq![w.perm_exec_w3],
                ..batch
            }
        } else if s == MEM_EXTRACT {
            SatTask {
                secs: seq![w.perm_w0, w.mem_block_w1, w.block_vars, w.block_inputs],
                ..batch
            }
        } else {
            SatTask {
                batch: false,
                num_shared: 0,
                num_cons_base: self.perm_poly_num_cons_base as nat,
                max_num_proofs: self.block_max_num_proofs_bound as nat,
                gens: *self.proofs_times_vars_gens,
                secs: seq![w.mem_block_w1],
                ..batch
            }
        }
    }

    /// What is claimed of the execution.
    pub open spec fn io_claim(self) -> IOClaim {
        IOClaim {
            input_block_num: Scalar::of(self.input_block_num as nat),
            output_block_num: Scalar::of(self.output_block_num as nat),
            input: decoded_list(self.input@),
            output: decoded_list(self.output@),
            output_block_index: self.output_block_index as nat,
            cutoff: self.input_output_cutoff as nat,
            num_vars: self.num_vars as nat,
        }
    }
}

/// Whether the matrices of a part are evaluated at coordinates of instances
/// too.
pub open spec fn uses_rp(s: int) -> bool {
    s == BLOCK || s == PERM_PRELIM || s == MEM_EXTRACT
}

/// What is opened between the two steps of a part: the first two values of
/// the shared witness are the two challenges.
pub open spec fn mid_openings(w: WitnessMats, tau: Scalar, r: Scalar, s: int, ry_len: nat) -> Seq<
    Opening,
> {
    if s == PERM_PRELIM {
        seq![
            Opening {
                z: flat(w.perm_w0[0]),
                point: repeated(crate::scalar::szero(), ry_len),
                value: tau,
            },
            Opening { z: flat(w.perm_w0[0]), point: corner(ry_len, 1), value: r },
        ]
    } else {
        seq![]
    }
}

/// The opening of a product: the fourth value of the first row.
pub open spec fn product_opening(m: Seq<Seq<Scalar>>) -> Opening {
    Opening { z: flat(m), point: corner(log2_up(flat(m).len()), 2), value: flat(m)[3] }
}

/// The matrices whose products a part leaves.
pub open spec fn product_mats(w: WitnessMats, s: int) -> Seq<Seq<Seq<Scalar>>> {
    if s == PERM_BLOCK_POLY {
        w.perm_block_w3
    } else if s == PERM_EXEC_POLY {
        w.perm_exec_w3
    } else if s == MEM_BLOCK_POLY {
        w.mem_block_w1
    } else {
        seq![]
    }
}

/// What is opened after a part.
pub open spec fn post_openings(w: WitnessMats, s: int) -> Seq<Opening> {
    product_mats(w, s).map_values(|m: Seq<Seq<Scalar>>| product_opening(m))
}

/// The products that a part leaves.
pub open spec fn product_values(w: WitnessMats, s: int) -> Seq<Scalar> {
    product_mats(w, s).map_values(|m: Seq<Seq<Scalar>>| flat(m)[3])
}

/// Whether a matrix has the given shape.
pub open spec fn shaped(m: Seq<Seq<Scalar>>, num_rows: nat, width: nat) -> bool {
    m.len() == num_rows && all_wide(m, width)
}

/// Whether the constraints of a part can be evaluated.
pub open spec fn evaluable(i: R1CS, with_rp: bool) -> bool {
    &&& i.in_range()
    &&& i.num_instances <= usize::MAX
    &&& i.num_cons <= usize::MAX
    &&& i.num_vars <= usize::MAX
    &&& !with_rp ==> i.a.len() <= 1
}

impl<'a> ProverInput<'a> {
    /// Whether the copies of block `p` and its generators have matching sizes.
    pub open spec fn block_fits(self, p: int) -> bool {
        let n = self.block_num_proofs@[p] as nat;
        let size = n * self.num_vars as nat;
        let accesses = self.block_num_mem_accesses@[p] as nat;
        &&& is_pow2(n)
        &&& size <= usize::MAX
        &&& shaped(self.vars()[p], n, self.num_vars as nat)
        &&& shaped(self.inputs()[p], n, self.num_vars as nat)
        &&& self.vars_gens.gens_pc.fits(log2_up(size))
        &&& self.proofs_times_vars_gens.gens_pc.fits(log2_up(size))
        &&& 1 <= accesses
        &&& 2 * accesses <= self.num_vars - 4
        &&& self.mems()[p].len() >= n
        &&& forall|q: int| 0 <= q < n ==> (#[trigger] self.mems()[p][q]).len() >= 4 + 2 * accesses
    }

    /// The sizes agree, the inputs and outputs are encodings of scalars, and
    /// the generators suffice. Lists may go on behind the last block, with no
    /// more accesses to memory and no wider inputs than a section holds.
    pub open spec fn wf(self) -> bool {
        let exec_size = self.consis_num_proofs as nat * self.num_vars as nat;
        &&& self.num_vars >= 4
        &&& is_pow2(self.num_vars as nat)
        &&& self.vars_gens.gens_pc.fits(log2_up(self.num_vars as nat))
        &&& 2 * self.input_output_cutoff <= self.num_vars
        &&& all_canonical(self.input@)
        &&& all_canonical(self.output@)
        &&& self.io_claim().wf()
        &&& self.block_num_proofs@.len() >= self.block_num_instances
        &&& self.block_num_mem_accesses@.len() >= self.block_num_instances
        &&& self.block_vars_mat@.len() >= self.block_num_instances
        &&& self.block_inputs_mat@.len() >= self.block_num_instances
        &&& self.block_mems_mat@.len() >= self.block_num_instances
        &&& forall|p: int| 0 <= p < self.block_num_instances ==> #[trigger] self.block_fits(p)
        &&& forall|k: int|
            0 <= k < self.block_num_mem_accesses@.len() ==> 2
                * #[trigger] self.block_num_mem_accesses@[k] <= self.num_vars - 4
        &&& forall|p: int, q: int|
            0 <= p < self.block_inputs_mat@.len() && 0 <= q < self.block_inputs_mat@[p]@.len()
                ==> (#[trigger] self.block_inputs_mat@[p]@[q])@.len() <= self.num_vars
        &&& is_pow2(self.consis_num_proofs as nat)
        &&& exec_size <= usize::MAX
        &&& shaped(self.exec(), self.consis_num_proofs as nat, self.num_vars as nat)
        &&& self.vars_gens.gens_pc.fits(log2_up(exec_size))
        &&& self.total_proofs_times_vars_gens.gens_pc.fits(log2_up(exec_size))
        &&& forall|s: int|
            0 <= s < NUM_PARTS ==> #[trigger] evaluable(self.program(s).inst@, uses_rp(s))
        &&& self.perm_prelim.inst@.num_vars == self.num_vars
    }
}

} // verus!
