//! The prover of a program.
use crate::committed::{
    all_fit_gens, all_wf, commit_matrices, commit_pairs, commit_single, fits_gens, mats_of,
    Committed,
};
use crate::commitments::Gens;
use crate::dense_mlpoly::PolyCommitmentGens;
use crate::instance::{decoded_list, read_scalars, Assignment};
use crate::math::{is_pow2, log2_up};
use crate::scalar::Scalar;
use crate::sparse_mlpoly::{lemma_pow2_product, InstanceCommitment, R1CSCommitment};
use crate::statement::{
    assignment_mats, assignment_rows, said_counts, said_programs, said_statement, shaped,
    ProverInput, WitnessMats,
};
use crate::transcript::{
    append_protocol_name, append_scalar, append_scalars, challenge_scalar, history,
};
use crate::vectors::{copy_of, flat, lemma_uniform_len, mats, rows};
use crate::witness::{
    all_wide, consistency_witness, memory_witness, permutation_witness, powers, powers_of,
    shared_row, weigh_rows, weighted_mats, weighted_rows,
};
use merlin::Transcript;
use vstd::prelude::*;
use vstd::string::StringSliceAdditionalSpecFns;

verus! {

/// All witnesses, with the commitments to them.
pub struct Witnesses {
    /// The variables of the blocks.
    pub block_vars: Vec<Committed>,
    /// The inputs and outputs of the blocks.
    pub block_inputs: Vec<Committed>,
    /// The inputs and outputs in the order of execution.
    pub exec_inputs: Vec<Committed>,
    /// The shared witness.
    pub perm_w0: Vec<Committed>,
    /// The weighted rows of the blocks.
    pub perm_block_w2: Vec<Committed>,
    /// The accumulators of the blocks.
    pub perm_block_w3: Vec<Committed>,
    /// The weighted rows of the execution.
    pub perm_exec_w2: Vec<Committed>,
    /// The accumulator of the execution.
    pub perm_exec_w3: Vec<Committed>,
    /// The weighted halves of the rows of the execution.
    pub consis_w2: Vec<Committed>,
    /// The combinations of the halves.
    pub consis_w3: Vec<Committed>,
    /// The accesses to memory and their accumulators.
    pub mem_block_w1: Vec<Committed>,
}

impl Witnesses {
    /// The matrices.
    pub open spec fn mats(self) -> WitnessMats {
        WitnessMats {
            block_vars: mats_of(self.block_vars@),
            block_inputs: mats_of(self.block_inputs@),
            exec_inputs: mats_of(self.exec_inputs@),
            perm_w0: mats_of(self.perm_w0@),
            perm_block_w2: mats_of(self.perm_block_w2@),
            perm_block_w3: mats_of(self.perm_block_w3@),
            perm_exec_w2: mats_of(self.perm_exec_w2@),
            perm_exec_w3: mats_of(self.perm_exec_w3@),
            consis_w2: mats_of(self.consis_w2@),
            consis_w3: mats_of(self.consis_w3@),
            mem_block_w1: mats_of(self.mem_block_w1@),
        }
    }

    /// Polynomials and commitments are those of the matrices.
    pub open spec fn wf(self, g: Gens) -> bool {
        &&& all_wf(self.block_vars@, g)
        &&& all_wf(self.block_inputs@, g)
        &&& all_wf(self.exec_inputs@, g)
        &&& all_wf(self.perm_w0@, g)
        &&& all_wf(self.perm_block_w2@, g)
        &&& all_wf(self.perm_block_w3@, g)
        &&& all_wf(self.perm_exec_w2@, g)
        &&& all_wf(self.perm_exec_w3@, g)
        &&& all_wf(self.consis_w2@, g)
        &&& all_wf(self.consis_w3@, g)
        &&& all_wf(self.mem_block_w1@, g)
    }
}

fn unwrap_rows(v: &Vec<Assignment>) -> (r: Vec<Vec<Scalar>>)
    ensures
        rows(r@) == assignment_rows(v@),
{
    let mut r: Vec<Vec<Scalar>> = Vec::new();
    let mut i: usize = 0;
    while i < v.len()
        invariant
            i <= v@.len(),
            r@.len() == i,
            forall|j: int| 0 <= j < i ==> (#[trigger] r@[j])@ == v@[j]@,
        decreases v@.len() - i,
    {
        r.push(copy_of(v[i].values()));
        i += 1;
    }
    assert(rows(r@) =~= assignment_rows(v@));
    r
}

fn unwrap_mats(v: &Vec<Vec<Assignment>>, n: usize) -> (r: Vec<Vec<Vec<Scalar>>>)
    requires
        n <= v@.len(),
    ensures
        mats(r@) == assignment_mats(v@.take(n as int)),
{
    let mut r: Vec<Vec<Vec<Scalar>>> = Vec::new();
    let mut i: usize = 0;
    while i < n
        invariant
            i <= n <= v@.len(),
            r@.len() == i,
            forall|j: int| 0 <= j < i ==> rows((#[trigger] r@[j])@) == assignment_rows(v@[j]@),
        decreases n - i,
    {
        r.push(unwrap_rows(&v[i]));
        i += 1;
    }
    assert(mats(r@) =~= assignment_mats(v@.take(n as int)));
    r
}

/// The commitments of a list of references.
pub open spec fn program_views(v: Seq<&R1CSCommitment>) -> Seq<InstanceCommitment> {
    v.map_values(|c: &R1CSCommitment| c@)
}

/// Says the public part of a statement.
pub(crate) fn say_statement(
    programs: &Vec<&R1CSCommitment>,
    input_block_num: usize,
    output_block_num: usize,
    input: &Vec<Scalar>,
    output: &Vec<Scalar>,
    block_max_num_proofs: usize,
    block_num_proofs: &Vec<usize>,
    t: &mut Transcript,
)
    ensures
        history(*final(t)) == said_statement(
            history(*old(t)),
            program_views(programs@),
            input_block_num as nat,
            output_block_num as nat,
            input@,
            output@,
            block_max_num_proofs as nat,
            block_num_proofs@,
        ),
{
    proof {
        reveal_strlit("Spartan SNARK proof");
        vstd::utf8::is_ascii_chars_encode_utf8("Spartan SNARK proof"@);
    }
    append_protocol_name(t, "Spartan SNARK proof");
    let ghost h = history(*t);
    let ghost views = program_views(programs@);
    let mut i: usize = 0;
    while i < programs.len()
        invariant
            i <= programs@.len(),
            views == program_views(programs@),
            history(*t) == said_programs(h, views, i as nat),
        decreases programs@.len() - i,
    {
        programs[i].append_to_transcript("comm", t);
        i += 1;
    }
    append_scalar(t, "input_block_num", &Scalar::from_u64(input_block_num as u64));
    append_scalar(t, "output_block_num", &Scalar::from_u64(output_block_num as u64));
    append_scalars(t, "input_list", input);
    append_scalars(t, "output_list", output);
    append_scalar(t, "block_max_num_proofs", &Scalar::from_u64(block_max_num_proofs as u64));
    let ghost h2 = history(*t);
    let mut i: usize = 0;
    while i < block_num_proofs.len()
        invariant
            i <= block_num_proofs@.len(),
            history(*t) == said_counts(h2, "block_num_proofs"@, block_num_proofs@, i as nat),
        decreases block_num_proofs@.len() - i,
    {
        append_scalar(t, "block_num_proofs", &Scalar::from_u64(block_num_proofs[i] as u64));
        i += 1;
    }
}

/// A matrix whose shape fits can be committed to.
pub proof fn lemma_shape_fits(m: Seq<Seq<Scalar>>, n: nat, width: nat, gens: PolyCommitmentGens)
    requires
        shaped(m, n, width),
        is_pow2(n),
        is_pow2(width),
        gens.fits(log2_up(n * width)),
    ensures
        fits_gens(m, gens),
        flat(m).len() == n * width,
{
    lemma_uniform_len(m, width);
    lemma_pow2_product(n, width);
    lemma_pow2_product(n * width, n * width);
}

impl<'a> ProverInput<'a> {
    /// The matrices of the blocks can be committed to.
    pub(crate) proof fn lemma_blocks_fit(self, w: WitnessMats, tau: Scalar, r: Scalar)
        requires
            self.wf(),
            w == self.witnesses(tau, r),
        ensures
            all_fit_gens(w.block_vars, self.vars_gens.gens_pc),
            all_fit_gens(w.block_inputs, self.vars_gens.gens_pc),
            all_fit_gens(w.perm_block_w2, self.vars_gens.gens_pc),
            all_fit_gens(w.perm_block_w3, self.vars_gens.gens_pc),
            all_fit_gens(w.mem_block_w1, self.vars_gens.gens_pc),
            all_fit_gens(w.perm_block_w3, self.proofs_times_vars_gens.gens_pc),
            all_fit_gens(w.mem_block_w1, self.proofs_times_vars_gens.gens_pc),
            w.block_vars.len() == self.block_num_instances,
            w.block_inputs.len() == self.block_num_instances,
            w.perm_block_w2.len() == self.block_num_instances,
            forall|p: int|
                0 <= p < self.block_num_instances ==> flat(#[trigger] w.perm_block_w3[p]).len() >= 4,
            forall|p: int|
                0 <= p < self.block_num_instances ==> flat(#[trigger] w.mem_block_w1[p]).len() >= 4,
    {
        let width = self.num_vars as nat;
        let gens = self.vars_gens.gens_pc;
        let gens2 = self.proofs_times_vars_gens.gens_pc;
        assert forall|p: int| 0 <= p < self.block_num_instances implies fits_gens(
            #[trigger] w.block_vars[p],
            gens,
        ) && fits_gens(w.block_inputs[p], gens) && fits_gens(w.perm_block_w2[p], gens) && fits_gens(
            w.perm_block_w3[p],
            gens,
        ) && fits_gens(w.mem_block_w1[p], gens) && fits_gens(w.perm_block_w3[p], gens2)
            && fits_gens(w.mem_block_w1[p], gens2) && flat(w.perm_block_w3[p]).len() >= 4 && flat(
            w.mem_block_w1[p],
        ).len() >= 4 by {
            assert(self.block_fits(p));
            let n = self.block_num_proofs@[p] as nat;
            lemma_shape_fits(w.block_vars[p], n, width, gens);
            lemma_pow2_product(n, width);
            assert(n * width >= 4) by (nonlinear_arith)
                requires
                    n >= 1,
                    width >= 4,
            ;
            lemma_shape_fits(w.block_inputs[p], n, width, gens);
            assert(shaped(w.perm_block_w2[p], n, width));
            lemma_shape_fits(w.perm_block_w2[p], n, width, gens);
            assert(shaped(w.perm_block_w3[p], n, width));
            lemma_shape_fits(w.perm_block_w3[p], n, width, gens);
            lemma_shape_fits(w.perm_block_w3[p], n, width, gens2);
            assert(shaped(w.mem_block_w1[p], n, width));
            lemma_shape_fits(w.mem_block_w1[p], n, width, gens);
            lemma_shape_fits(w.mem_block_w1[p], n, width, gens2);
        }
        assert forall|p: int| 0 <= p < w.block_inputs.len() implies fits_gens(
            #[trigger] w.block_inputs[p],
            gens,
        ) by {
            assert(fits_gens(w.block_vars[p], gens));
        }
        assert forall|p: int| 0 <= p < w.perm_block_w2.len() implies fits_gens(
            #[trigger] w.perm_block_w2[p],
            gens,
        ) by {
            assert(fits_gens(w.block_vars[p], gens));
        }
        assert forall|p: int| 0 <= p < w.perm_block_w3.len() implies fits_gens(
            #[trigger] w.perm_block_w3[p],
            gens,
        ) && fits_gens(w.perm_block_w3[p], gens2) && flat(w.perm_block_w3[p]).len() >= 4 by {
            assert(fits_gens(w.block_vars[p], gens));
        }
        assert forall|p: int| 0 <= p < w.mem_block_w1.len() implies fits_gens(
            #[trigger] w.mem_block_w1[p],
            gens,
        ) && fits_gens(w.mem_block_w1[p], gens2) && flat(w.mem_block_w1[p]).len() >= 4 by {
            assert(fits_gens(w.block_vars[p], gens));
        }
    }

    /// The matrices of the execution can be committed to.
    pub(crate) proof fn lemma_exec_fits(self, w: WitnessMats, tau: Scalar, r: Scalar)
        requires
            self.wf(),
            w == self.witnesses(tau, r),
        ensures
            fits_gens(self.exec(), self.vars_gens.gens_pc),
            fits_gens(w.perm_w0[0], self.vars_gens.gens_pc),
            flat(w.perm_w0[0]).len() == self.num_vars,
            fits_gens(w.perm_exec_w2[0], self.vars_gens.gens_pc),
            fits_gens(w.perm_exec_w3[0], self.vars_gens.gens_pc),
            fits_gens(w.consis_w2[0], self.vars_gens.gens_pc),
            fits_gens(w.consis_w3[0], self.vars_gens.gens_pc),
            fits_gens(w.perm_exec_w3[0], self.total_proofs_times_vars_gens.gens_pc),
            flat(w.perm_exec_w3[0]).len() >= 4,
            flat(self.exec()).len() == self.consis_num_proofs * self.num_vars,
    {
        let width = self.num_vars as nat;
        let n = self.consis_num_proofs as nat;
        let gens = self.vars_gens.gens_pc;
        lemma_shape_fits(self.exec(), n, width, gens);
        lemma_pow2_product(n, width);
        assert(n * width >= 4) by (nonlinear_arith)
            requires
                n >= 1,
                width >= 4,
        ;
        assert(shaped(w.perm_exec_w2[0], n, width));
        lemma_shape_fits(w.perm_exec_w2[0], n, width, gens);
        assert(shaped(w.perm_exec_w3[0], n, width));
        lemma_shape_fits(w.perm_exec_w3[0], n, width, gens);
        lemma_shape_fits(
            w.perm_exec_w3[0],
            n,
            width,
            self.total_proofs_times_vars_gens.gens_pc,
        );
        assert(shaped(w.consis_w2[0], n, width));
        lemma_shape_fits(w.consis_w2[0], n, width, gens);
        assert(shaped(w.consis_w3[0], n, width));
        lemma_shape_fits(w.consis_w3[0], n, width, gens);
        assert(shaped(w.perm_w0[0], 1, width));
        crate::math::lemma_log2_of_pow2(0);
        vstd::arithmetic::power2::lemma2_to64();
        lemma_shape_fits(w.perm_w0[0], 1, width, gens);
    }
}

/// The weighted rows of all blocks.
fn weigh_blocks(l: &Vec<Committed>, weights: &Vec<Scalar>, r: &Scalar) -> (v: Vec<Vec<Vec<Scalar>>>)
    requires
        weights@ == powers(*r, weights@.len()),
        forall|p: int| 0 <= p < l@.len() ==> all_wide((#[trigger] l@[p]).mat(), weights@.len()),
    ensures
        mats(v@) == weighted_mats(mats_of(l@), *r),
{
    let mut v: Vec<Vec<Vec<Scalar>>> = Vec::new();
    let mut p: usize = 0;
    while p < l.len()
        invariant
            p <= l@.len(),
            weights@ == powers(*r, weights@.len()),
            forall|j: int| 0 <= j < l@.len() ==> all_wide((#[trigger] l@[j]).mat(), weights@.len()),
            v@.len() == p,
            forall|j: int| 0 <= j < p ==> rows((#[trigger] v@[j])@) == weighted_rows(l@[j].mat(), *r),
        decreases l@.len() - p,
    {
        assert(all_wide(l@[p as int].mat(), weights@.len()));
        v.push(weigh_rows(&l[p].rows, weights, r));
        p += 1;
    }
    assert(mats(v@) =~= weighted_mats(mats_of(l@), *r));
    v
}

/// Says the statement, and commits to the assignments.
fn commit_assignments(inp: &ProverInput<'_>, t: &mut Transcript) -> (res: (
    Vec<Committed>,
    Vec<Committed>,
    Vec<Committed>,
    Vec<Scalar>,
    Vec<Scalar>,
))
    requires
        inp.wf(),
    ensures
        mats_of(res.0@) == inp.vars(),
        mats_of(res.1@) == inp.inputs(),
        mats_of(res.2@) == seq![inp.exec()],
        all_wf(res.0@, inp.g()),
        all_wf(res.1@, inp.g()),
        all_wf(res.2@, inp.g()),
        res.3@ == decoded_list(inp.input@),
        res.4@ == decoded_list(inp.output@),
        history(*final(t)) == inp.said_assignments(history(*old(t))),
{
    let ghost h = history(*t);
    let input = match read_scalars(inp.input.as_slice()) {
        Ok(s) => s,
        Err(_) => Vec::new(),
    };
    let output = match read_scalars(inp.output.as_slice()) {
        Ok(s) => s,
        Err(_) => Vec::new(),
    };
    let programs: Vec<&R1CSCommitment> = vec![
        inp.block.comm.get(),
        inp.consis_comb.comm.get(),
        inp.consis_check.comm.get(),
        inp.perm_prelim.comm.get(),
        inp.perm_root.comm.get(),
        inp.perm_block_poly.comm.get(),
        inp.perm_exec_poly.comm.get(),
        inp.mem_extract.comm.get(),
        inp.mem_addr_comb.comm.get(),
    ];
    assert(program_views(programs@) =~= inp.programs());
    say_statement(
        &programs,
        inp.input_block_num,
        inp.output_block_num,
        &input,
        &output,
        inp.block_max_num_proofs,
        inp.block_num_proofs,
        t,
    );
    let gens = &inp.vars_gens.gens_pc;
    proof {
        let w = inp.witnesses(inp.tau(h), inp.r(h));
        inp.lemma_blocks_fit(w, inp.tau(h), inp.r(h));
        inp.lemma_exec_fits(w, inp.tau(h), inp.r(h));
    }
    let vars = unwrap_mats(inp.block_vars_mat, inp.block_num_instances);
    let inputs = unwrap_mats(inp.block_inputs_mat, inp.block_num_instances);
    let (block_vars, block_inputs) = commit_pairs(vars, inputs, gens, t);
    let exec_inputs = commit_single(unwrap_rows(inp.exec_inputs_list), gens, t);
    (block_vars, block_inputs, exec_inputs, input, output)
}

/// The witnesses of the blocks: weighted rows, accumulators, and accesses to
/// memory.
fn block_witnesses(
    inp: &ProverInput<'_>,
    block_inputs: &Vec<Committed>,
    weights: &Vec<Scalar>,
    tau: &Scalar,
    r: &Scalar,
) -> (res: (Vec<Vec<Vec<Scalar>>>, Vec<Vec<Vec<Scalar>>>, Vec<Vec<Vec<Scalar>>>))
    requires
        inp.wf(),
        mats_of(block_inputs@) == inp.inputs(),
        weights@ == powers(*r, inp.num_vars as nat),
    ensures
        mats(res.0@) == inp.witnesses(*tau, *r).perm_block_w2,
        mats(res.1@) == inp.witnesses(*tau, *r).perm_block_w3,
        mats(res.2@) == inp.witnesses(*tau, *r).mem_block_w1,
        res.0@.len() == inp.block_num_instances,
        res.1@.len() == inp.block_num_instances,
        res.2@.len() == inp.block_num_instances,
{
    let n = inp.num_vars;
    let ghost w = inp.witnesses(*tau, *r);
    let ghost mats_in = mats_of(block_inputs@);
    let mems = unwrap_mats(inp.block_mems_mat, inp.block_num_instances);
    assert forall|p: int| 0 <= p < block_inputs@.len() implies all_wide(
        (#[trigger] block_inputs@[p]).mat(),
        n as nat,
    ) by {
        assert(inp.block_fits(p));
        assert(mats_in[p] == block_inputs@[p].mat());
    }
    let block_w2 = weigh_blocks(block_inputs, weights, r);
    let mut block_w3: Vec<Vec<Vec<Scalar>>> = Vec::new();
    let mut mem_w1: Vec<Vec<Vec<Scalar>>> = Vec::new();
    let mut p: usize = 0;
    while p < inp.block_num_instances
        invariant
            p <= inp.block_num_instances,
            inp.wf(),
            n == inp.num_vars,
            w == inp.witnesses(*tau, *r),
            mats_in == mats_of(block_inputs@),
            mats_in == inp.inputs(),
            mats(mems@) == inp.mems(),
            mats(block_w2@) == w.perm_block_w2,
            block_w3@.len() == p,
            mem_w1@.len() == p,
            forall|j: int| 0 <= j < p ==> rows((#[trigger] block_w3@[j])@) == w.perm_block_w3[j],
            forall|j: int| 0 <= j < p ==> rows((#[trigger] mem_w1@[j])@) == w.mem_block_w1[j],
        decreases inp.block_num_instances - p,
    {
        proof {
            assert(inp.block_fits(p as int));
            assert(mats_in[p as int] == block_inputs@[p as int].mat());
            assert(mats_in.len() == block_inputs@.len());
            assert(mats(mems@).len() == mems@.len());
            assert(mats(mems@)[p as int] == rows(mems@[p as int]@));
            assert(mats(block_w2@).len() == block_w2@.len());
            assert(mats(block_w2@)[p as int] == rows(block_w2@[p as int]@));
            assert forall|q: int| 0 <= q < inp.block_num_proofs@[p as int] implies (
            #[trigger] mems@[p as int]@[q])@.len() >= 4 + 2
                * inp.block_num_mem_accesses@[p as int] by {
                assert(inp.mems()[p as int][q] == mems@[p as int]@[q]@);
            }
        }
        let copies = inp.block_num_proofs[p];
        block_w3.push(
            permutation_witness(&block_inputs[p].rows, &block_w2[p], copies, tau, r, n),
        );
        mem_w1.push(
            memory_witness(
                &block_inputs[p].rows,
                &mems[p],
                copies,
                tau,
                r,
                inp.block_num_mem_accesses[p],
                n,
            ),
        );
        p += 1;
    }
    assert(mats(block_w3@) =~= w.perm_block_w3);
    assert(mats(mem_w1@) =~= w.mem_block_w1);
    assert(mats(block_w2@).len() == block_w2@.len());
    (block_w2, block_w3, mem_w1)
}

/// Commits to the assignments, draws the two challenges, computes the
/// witnesses that depend on them and commits to those.
pub(crate) fn prepare(inp: &ProverInput<'_>, t: &mut Transcript) -> (res: (
    Witnesses,
    Scalar,
    Scalar,
    Vec<Scalar>,
    Vec<Scalar>,
))
    requires
        inp.wf(),
    ensures
        res.0.wf(inp.g()),
        res.1 == inp.tau(history(*old(t))),
        res.2 == inp.r(history(*old(t))),
        res.0.mats() == inp.witnesses(res.1, res.2),
        res.3@ == decoded_list(inp.input@),
        res.4@ == decoded_list(inp.output@),
        history(*final(t)) == inp.said_witnesses(history(*old(t))),
{
    let ghost h = history(*t);
    let (block_vars, block_inputs, exec_inputs, input, output) = commit_assignments(inp, t);
    let tau = challenge_scalar(t, "challenge_tau");
    let r = challenge_scalar(t, "challenge_r");
    let ghost w = inp.witnesses(tau, r);
    proof {
        assert(tau == inp.tau(h));
        assert(r == inp.r(h));
        inp.lemma_blocks_fit(w, tau, r);
        inp.lemma_exec_fits(w, tau, r);
    }
    let gens = &inp.vars_gens.gens_pc;
    let n = inp.num_vars;
    let weights = powers_of(&r, n);
    let (block_w2, block_w3, mem_w1) = block_witnesses(inp, &block_inputs, &weights, &tau, &r);
    assert(mats_of(exec_inputs@).len() == exec_inputs@.len());
    assert(mats_of(exec_inputs@)[0] == exec_inputs@[0].mat());
    let exec_w2 = weigh_rows(&exec_inputs[0].rows, &weights, &r);
    let copies = inp.consis_num_proofs;
    let exec_w3 = permutation_witness(&exec_inputs[0].rows, &exec_w2, copies, &tau, &r, n);
    let (consis_2, consis_3) = consistency_witness(
        &exec_inputs[0].rows,
        &weights,
        copies,
        &r,
        inp.input_output_cutoff,
        n,
    );
    let mut w0 = weights;
    w0.set(0, tau);
    let shared: Vec<Vec<Scalar>> = vec![w0];
    assert(rows(shared@) =~= w.perm_w0[0]) by {
        assert(w0@ =~= shared_row(tau, r, n as nat));
    }
    let perm_w0 = commit_single(shared, gens, t);
    let (perm_block_w2, perm_block_w3) = commit_pairs(block_w2, block_w3, gens, t);
    let perm_exec_w2 = commit_single(exec_w2, gens, t);
    let perm_exec_w3 = commit_single(exec_w3, gens, t);
    let consis_w2 = commit_single(consis_2, gens, t);
    let consis_w3 = commit_single(consis_3, gens, t);
    let mem_block_w1 = commit_matrices(mem_w1, gens, t);
    let res = Witnesses {
        block_vars,
        block_inputs,
        exec_inputs,
        perm_w0,
        perm_block_w2,
        perm_block_w3,
        perm_exec_w2,
        perm_exec_w3,
        consis_w2,
        consis_w3,
        mem_block_w1,
    };
    assert(res.mats() =~= w);
    (res, tau, r, input, output)
}

} // verus!
