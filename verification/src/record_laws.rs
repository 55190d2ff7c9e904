//! What the models of records hold, entry by entry.
use crate::commitments::Gens;
use crate::committed::all_wf;
use crate::comms::Commitments;
use crate::instance::SNARKGens;
use crate::io_proofs::{proof_at, IOProofs};
use crate::jobs::{BatchJob, SatCheck, SatJob, SingleJob};
use crate::nizk::DotProductProofLog;
use crate::prover::Witnesses;
use crate::r1csgens::R1CSGens;
use crate::r1csinstance::R1CS;
use crate::r1csproof::{prove_statement, BlockInput, R1CSProof, R1CSProofBlock, R1CSProofConsis};
use crate::scalar::Scalar;
use crate::sparse_mlpoly::{plain_commitment, R1CSCommitment, R1CSDecommitment};
use crate::statement::ProverInput;
use crate::sumcheck::ZKSumcheckInstanceProof;
use crate::vectors::{flat, rows};
use vstd::prelude::*;

verus! {

/// The model of a folded proof has its cross commitments, masks and answers.
pub proof fn law_inner_product_record(p: DotProductProofLog, k: int)
    requires
        0 <= k < p.bullet.l_vec@.len(),
        0 <= k < p.bullet.r_vec@.len(),
    ensures
        p@.l.len() == p.bullet.l_vec@.len(),
        p@.r.len() == p.bullet.r_vec@.len(),
        p@.l[k] == p.bullet.l_vec@[k],
        p@.r[k] == p.bullet.r_vec@[k],
        p@.delta == p.delta,
        p@.beta == p.beta,
        p@.z1 == p.z1,
        p@.z2 == p.z2,
{
}

/// The model of a sum-check has the commitments and proofs of each round.
pub proof fn law_sumcheck_record(p: ZKSumcheckInstanceProof, k: int)
    requires
        0 <= k < p.proofs@.len(),
    ensures
        p@.comm_polys.len() == p.comm_polys@.len(),
        p@.comm_evals.len() == p.comm_evals@.len(),
        p@.proofs.len() == p.proofs@.len(),
        p@.comm_polys[k] == p.comm_polys@[k],
        p@.comm_evals[k] == p.comm_evals@[k],
        p@.proofs[k].delta == p.proofs@[k].delta,
        p@.proofs[k].beta == p.proofs@[k].beta,
        p@.proofs[k].z == p.proofs@[k].z@,
        p@.proofs[k].z_delta == p.proofs@[k].z_delta,
        p@.proofs[k].z_beta == p.proofs@[k].z_beta,
{
}

/// The model of a proof about blocks has its two sum-checks in order, the step
/// between them, and a commitment and a proof for each block.
pub proof fn law_block_record(p: R1CSProofBlock, k: int)
    requires
        0 <= k < p.proof_eval_vars_at_ry_list@.len(),
    ensures
        p@.sc1 == p.sc_proof_phase1@,
        p@.sc2 == p.sc_proof_phase2@,
        p@.claims == p.claims_phase2,
        p@.comm == p.comm_vars_at_ry,
        p@.comm_list.len() == p.comm_vars_at_ry_list@.len(),
        p@.comm_list[k] == p.comm_vars_at_ry_list@[k],
        p@.evals.len() == p.proof_eval_vars_at_ry_list@.len(),
        p@.evals[k] == p.proof_eval_vars_at_ry_list@[k].proof@,
        p@.eq2 == p.proof_eq_sc_phase2,
{
}

/// The model of a proof about an execution has its two sum-checks in order, the
/// step between them, and the commitment and the proof of the value.
pub proof fn law_execution_record(p: R1CSProofConsis)
    ensures
        p@.sc1 == p.sc_proof_phase1@,
        p@.sc2 == p.sc_proof_phase2@,
        p@.claims == p.claims_phase2,
        p@.comm == p.comm_vars_at_ry,
        p@.eval == p.proof_eval_vars_at_ry.proof@,
        p@.eq2 == p.proof_eq_sc_phase2,
{
}

/// The model of a proof of satisfiability has the commitments to variables, to
/// inputs and to the execution, and both proofs.
pub proof fn law_satisfiability_record(p: R1CSProof, k: int)
    requires
        0 <= k < p.block_comm_vars_list@.len(),
        k < p.block_comm_io_list@.len(),
    ensures
        p@.comm_vars.len() == p.block_comm_vars_list@.len(),
        p@.comm_io.len() == p.block_comm_io_list@.len(),
        p@.comm_vars[k] == p.block_comm_vars_list@[k].c@,
        p@.comm_io[k] == p.block_comm_io_list@[k].c@,
        p@.comm_exec == p.exec_comm_io.c@,
        p@.block == p.block_proof@,
        p@.consis == p.consis_proof@,
{
}

/// The model of a commitment to an instance has its sizes and its points.
pub proof fn law_commitment_record(c: R1CSCommitment)
    ensures
        c@.num_cons == c.num_cons,
        c@.num_vars == c.num_vars,
        c@.batch_size == c.batch_size,
        c@.num_ops == c.num_ops,
        c@.num_mem_cells == c.num_mem_cells,
        c@.ops == c.comm_comb_ops.c@,
        c@.mem == c.comm_comb_mem.c@,
{
}

/// The model of what opens a commitment to an instance has the addresses and
/// stamps of rows and of columns, and the values.
pub proof fn law_decommitment_record(d: R1CSDecommitment, k: int, j: int)
    requires
        0 <= k < d.row.ops_addr@.len(),
        k < d.col.ops_addr@.len(),
        k < d.row.read_ts@.len(),
        k < d.col.read_ts@.len(),
        0 <= j < d.row.audit_ts@.len(),
        j < d.col.audit_ts@.len(),
    ensures
        d@.row.ops.len() == d.row.ops_addr@.len(),
        d@.col.ops.len() == d.col.ops_addr@.len(),
        d@.row.ops[k] == d.row.ops_addr@[k],
        d@.col.ops[k] == d.col.ops_addr@[k],
        d@.row.reads[k] == d.row.read_ts@[k],
        d@.col.reads[k] == d.col.read_ts@[k],
        d@.row.audits[j] == d.row.audit_ts@[j],
        d@.col.audits[j] == d.col.audit_ts@[j],
        d@.val == d.val@,
        d@.ops == d.comb_ops@,
        d@.mem == d.comb_mem@,
{
}

/// The model of the commitments of a proof has those of each witness in its
/// place.
pub proof fn law_commitments_record(c: Commitments)
    ensures
        forall|p: int|
            0 <= p < c.block_vars@.len() ==> #[trigger] c@.block_vars[p] == c.block_vars@[p].c@,
        forall|p: int|
            0 <= p < c.block_inputs@.len() ==> #[trigger] c@.block_inputs[p]
                == c.block_inputs@[p].c@,
        forall|p: int|
            0 <= p < c.exec_inputs@.len() ==> #[trigger] c@.exec_inputs[p] == c.exec_inputs@[p].c@,
        forall|p: int|
            0 <= p < c.perm_w0@.len() ==> #[trigger] c@.perm_w0[p] == c.perm_w0@[p].c@,
        forall|p: int|
            0 <= p < c.perm_block_w2@.len() ==> #[trigger] c@.perm_block_w2[p]
                == c.perm_block_w2@[p].c@,
        forall|p: int|
            0 <= p < c.perm_block_w3@.len() ==> #[trigger] c@.perm_block_w3[p]
                == c.perm_block_w3@[p].c@,
        forall|p: int|
            0 <= p < c.perm_exec_w2@.len() ==> #[trigger] c@.perm_exec_w2[p]
                == c.perm_exec_w2@[p].c@,
        forall|p: int|
            0 <= p < c.perm_exec_w3@.len() ==> #[trigger] c@.perm_exec_w3[p]
                == c.perm_exec_w3@[p].c@,
        forall|p: int|
            0 <= p < c.consis_w2@.len() ==> #[trigger] c@.consis_w2[p] == c.consis_w2@[p].c@,
        forall|p: int|
            0 <= p < c.consis_w3@.len() ==> #[trigger] c@.consis_w3[p] == c.consis_w3@[p].c@,
        forall|p: int|
            0 <= p < c.mem_block_w1@.len() ==> #[trigger] c@.mem_block_w1[p]
                == c.mem_block_w1@[p].c@,
        c@.block_vars.len() == c.block_vars@.len(),
        c@.block_inputs.len() == c.block_inputs@.len(),
        c@.exec_inputs.len() == c.exec_inputs@.len(),
        c@.perm_w0.len() == c.perm_w0@.len(),
        c@.perm_block_w2.len() == c.perm_block_w2@.len(),
        c@.perm_block_w3.len() == c.perm_block_w3@.len(),
        c@.perm_exec_w2.len() == c.perm_exec_w2@.len(),
        c@.perm_exec_w3.len() == c.perm_exec_w3@.len(),
        c@.consis_w2.len() == c.consis_w2@.len(),
        c@.consis_w3.len() == c.consis_w3@.len(),
        c@.mem_block_w1.len() == c.mem_block_w1@.len(),
{
}

/// The model of the witnesses has each matrix in its place, row by row.
pub proof fn law_witnesses_record(w: Witnesses, p: int, q: int)
    ensures
        0 <= p < w.block_vars@.len() && 0 <= q < w.block_vars@[p].rows@.len()
            ==> w.mats().block_vars[p][q] == w.block_vars@[p].rows@[q]@,
        0 <= p < w.block_inputs@.len() && 0 <= q < w.block_inputs@[p].rows@.len()
            ==> w.mats().block_inputs[p][q] == w.block_inputs@[p].rows@[q]@,
        0 <= p < w.exec_inputs@.len() && 0 <= q < w.exec_inputs@[p].rows@.len()
            ==> w.mats().exec_inputs[p][q] == w.exec_inputs@[p].rows@[q]@,
        0 <= p < w.perm_w0@.len() && 0 <= q < w.perm_w0@[p].rows@.len()
            ==> w.mats().perm_w0[p][q] == w.perm_w0@[p].rows@[q]@,
        0 <= p < w.perm_block_w2@.len() && 0 <= q < w.perm_block_w2@[p].rows@.len()
            ==> w.mats().perm_block_w2[p][q] == w.perm_block_w2@[p].rows@[q]@,
        0 <= p < w.perm_block_w3@.len() && 0 <= q < w.perm_block_w3@[p].rows@.len()
            ==> w.mats().perm_block_w3[p][q] == w.perm_block_w3@[p].rows@[q]@,
        0 <= p < w.perm_exec_w2@.len() && 0 <= q < w.perm_exec_w2@[p].rows@.len()
            ==> w.mats().perm_exec_w2[p][q] == w.perm_exec_w2@[p].rows@[q]@,
        0 <= p < w.perm_exec_w3@.len() && 0 <= q < w.perm_exec_w3@[p].rows@.len()
            ==> w.mats().perm_exec_w3[p][q] == w.perm_exec_w3@[p].rows@[q]@,
        0 <= p < w.consis_w2@.len() && 0 <= q < w.consis_w2@[p].rows@.len()
            ==> w.mats().consis_w2[p][q] == w.consis_w2@[p].rows@[q]@,
        0 <= p < w.consis_w3@.len() && 0 <= q < w.consis_w3@[p].rows@.len()
            ==> w.mats().consis_w3[p][q] == w.consis_w3@[p].rows@[q]@,
        0 <= p < w.mem_block_w1@.len() && 0 <= q < w.mem_block_w1@[p].rows@.len()
            ==> w.mats().mem_block_w1[p][q] == w.mem_block_w1@[p].rows@[q]@,
{
}

/// The proofs about input and output are made in this order: that the first and
/// the last block are valid, their numbers, and then each input followed by the
/// output at the same place.
pub proof fn law_input_output_record(p: IOProofs, j: int)
    requires
        0 <= j < p.input_correctness_proof_list@.len(),
        j < p.output_correctness_proof_list@.len(),
    ensures
        proof_at(p@, 0) == p.input_valid_proof.proof@,
        proof_at(p@, 1) == p.output_valid_proof.proof@,
        proof_at(p@, 2) == p.input_block_num_proof.proof@,
        proof_at(p@, 3) == p.output_block_num_proof.proof@,
        proof_at(p@, 4 + 2 * j) == p.input_correctness_proof_list@[j].proof@,
        proof_at(p@, 5 + 2 * j) == p.output_correctness_proof_list@[j].proof@,
        p@.inputs.len() == p.input_correctness_proof_list@.len(),
        p@.outputs.len() == p.output_correctness_proof_list@.len(),
{
    assert((4 + 2 * j) % 2 == 0 && (4 + 2 * j - 4) / 2 == j);
    assert((5 + 2 * j) % 2 == 1 && (5 + 2 * j - 4) / 2 == j);
}

/// A job for copies of instances asks what its fields say: row `q` of the matrix
/// of instance `p` in section `i` is the row that the section holds there.
pub proof fn law_batch_job_record(j: BatchJob<'_>, i: int, p: int, q: int)
    requires
        0 <= i < j.secs@.len(),
        0 <= p < j.secs@[i]@.len(),
        0 <= q < j.secs@[i]@[p].rows@.len(),
    ensures
        ({
            let t = SatJob::Batch(j).task();
            &&& t.batch
            &&& t.num_shared == j.num_shared
            &&& t.num_instances == j.num_instances
            &&& t.max_num_proofs == j.max_num_proofs
            &&& t.num_proofs == j.num_proofs@
            &&& t.num_vars == j.num_vars
            &&& t.inst == j.inst@
            &&& t.gens == *j.gens
            &&& t.secs.len() == j.secs@.len()
            &&& t.secs[i].len() == j.secs@[i]@.len()
            &&& t.secs[i][p].len() == j.secs@[i]@[p].rows@.len()
            &&& t.secs[i][p][q] == j.secs@[i]@[p].rows@[q]@
        }),
{
}

/// A job for one system of constraints asks what its fields say.
pub proof fn law_single_job_record(j: SingleJob<'_>, p: int, q: int)
    requires
        0 <= p < j.witness@.len(),
        0 <= q < j.witness@[p].rows@.len(),
    ensures
        ({
            let t = SatJob::Single(j).task();
            &&& !t.batch
            &&& t.num_instances == j.num_instances
            &&& t.num_cons_base == j.num_cons_base
            &&& t.max_num_proofs == j.max_num_proofs
            &&& t.num_proofs == j.num_proofs@
            &&& t.num_vars == j.num_vars
            &&& t.inst == j.inst@
            &&& t.gens == *j.gens
            &&& t.secs.len() == 1
            &&& t.secs[0].len() == j.witness@.len()
            &&& t.secs[0][p].len() == j.witness@[p].rows@.len()
            &&& t.secs[0][p][q] == j.witness@[p].rows@[q]@
        }),
{
}

/// A check of satisfiability asks what its fields say.
pub proof fn law_check_record(c: SatCheck<'_>, i: int, p: int)
    requires
        0 <= i < c.comms@.len(),
        0 <= p < c.comms@[i]@.len(),
    ensures
        ({
            let t = c.task();
            &&& t.batch == c.batch
            &&& t.num_shared == c.num_shared
            &&& t.num_instances == c.num_instances
            &&& t.max_num_proofs == c.max_num_proofs
            &&& t.num_proofs == c.num_proofs@
            &&& t.num_vars == c.num_vars
            &&& t.num_cons == c.num_cons
            &&& t.gens == *c.gens
            &&& t.evals == c.evals
            &&& t.comms.len() == c.comms@.len()
            &&& t.comms[i].len() == c.comms@[i]@.len()
            &&& t.comms[i][p] == c.comms@[i]@[p].c@
        }),
{
}

/// The model of the parameters has the points of the generators in their places.
pub proof fn law_parameters_record(g: SNARKGens)
    ensures
        g@.sat_1.g == g.gens_r1cs_sat.gens_sc.gens_1.g@,
        g@.sat_1.h == g.gens_r1cs_sat.gens_sc.gens_1.h,
        g@.sat_3.g == g.gens_r1cs_sat.gens_sc.gens_3.g@,
        g@.sat_3.h == g.gens_r1cs_sat.gens_sc.gens_3.h,
        g@.sat_4.g == g.gens_r1cs_sat.gens_sc.gens_4.g@,
        g@.sat_4.h == g.gens_r1cs_sat.gens_sc.gens_4.h,
        g@.sat_pc.0.g == g.gens_r1cs_sat.gens_pc.gens.gens_n.g@,
        g@.sat_pc.1.g == g.gens_r1cs_sat.gens_pc.gens.gens_1.g@,
        g@.eval_ops.0.g == g.gens_r1cs_eval.gens_ops.gens.gens_n.g@,
        g@.eval_ops.1.g == g.gens_r1cs_eval.gens_ops.gens.gens_1.g@,
        g@.eval_mem.0.g == g.gens_r1cs_eval.gens_mem.gens.gens_n.g@,
        g@.eval_mem.1.g == g.gens_r1cs_eval.gens_mem.gens.gens_1.g@,
        g@.eval_derefs.0.g == g.gens_r1cs_eval.gens_derefs.gens.gens_n.g@,
        g@.eval_derefs.1.g == g.gens_r1cs_eval.gens_derefs.gens.gens_1.g@,
{
}

/// The assignments of a statement are taken block by block and row by row, as
/// many blocks as there are.
pub proof fn law_statement_record(inp: ProverInput<'_>, p: int, q: int)
    requires
        inp.wf(),
        0 <= p < inp.block_num_instances,
    ensures
        inp.vars().len() == inp.block_num_instances,
        inp.inputs().len() == inp.block_num_instances,
        inp.mems().len() == inp.block_num_instances,
        0 <= q < inp.block_vars_mat@[p]@.len() ==> inp.vars()[p][q] == inp.block_vars_mat@[p]@[q]@,
        0 <= q < inp.block_inputs_mat@[p]@.len() ==> inp.inputs()[p][q]
            == inp.block_inputs_mat@[p]@[q]@,
        0 <= q < inp.block_mems_mat@[p]@.len() ==> inp.mems()[p][q] == inp.block_mems_mat@[p]@[q]@,
        0 <= q < inp.exec_inputs_list@.len() ==> inp.exec()[q] == inp.exec_inputs_list@[q]@,
        inp.exec().len() == inp.exec_inputs_list@.len(),
{
}

/// What a proof of satisfiability is about: the variables and the inputs of
/// each block under the constraints of the blocks, and the execution under its
/// own.
pub proof fn law_satisfiability_stated(
    max: usize,
    block_inst: R1CS,
    block_gens: R1CSGens,
    consis_inst: R1CS,
    consis_gens: R1CSGens,
    vars: Seq<Seq<Seq<Scalar>>>,
    inputs: Seq<Seq<Seq<Scalar>>>,
    executed: Seq<Seq<Scalar>>,
    p: int,
)
    requires
        0 <= p < vars.len() <= inputs.len(),
    ensures
        ({
            let i = prove_statement(
                max,
                block_inst,
                block_gens,
                consis_inst,
                consis_gens,
                vars,
                inputs,
                executed,
            );
            &&& i.block.vars == vars
            &&& i.block.inputs.len() == vars.len()
            &&& i.block.inputs[p] == inputs[p]
            &&& i.block.max == max
            &&& i.block.width == vars[0][0].len()
            &&& i.block.inst == block_inst
            &&& i.block.gens == block_gens
            &&& i.consis.executed == executed
            &&& i.consis.width == executed[0].len()
            &&& i.consis.block_inst == block_inst
            &&& i.consis.inst == consis_inst
            &&& i.consis.gens == consis_gens
        }),
{
}

/// In the assignment of a copy of a block its variables stand before its inputs.
pub proof fn law_blocks_joined(i: BlockInput, p: int, q: int, j: int)
    requires
        i.wf(),
        0 <= p < i.vars.len(),
        0 <= q < i.vars[p].len(),
        0 <= j < i.width,
    ensures
        i.z().len() == i.vars.len(),
        i.z()[p].len() == i.vars[p].len(),
        i.z()[p][q].len() == 2 * i.width,
        i.z()[p][q][j] == i.vars[p][q][j],
        i.z()[p][q][i.width + j] == i.inputs[p][q][j],
{
    i.lemma_sizes();
    assert(i.block_fits(p));
    assert(i.vars[p][q].len() == i.width);
    assert(i.inputs[p][q].len() == i.width);
}

/// In a job that is well formed the sections are counted, and each of their
/// matrices comes with the polynomial of its values, row by row, and with the
/// commitment to it without blinds.
pub proof fn law_batch_job_formed(j: BatchJob<'_>, g: Gens, i: int, p: int)
    requires
        SatJob::Batch(j).wf(g),
        0 <= i < j.secs@.len(),
        0 <= p < j.secs@[i]@.len(),
    ensures
        j.num_secs == j.secs@.len(),
        ({
            let m = j.secs@[i]@[p];
            let z = flat(rows(m.rows@));
            &&& m.poly@ == z
            &&& m.comm.c@ == plain_commitment(z, g)
        }),
{
    assert(all_wf(j.secs@[i]@, g));
    assert(j.secs@[i]@[p].wf(g));
}

/// The same of a job for one system of constraints.
pub proof fn law_single_job_formed(j: SingleJob<'_>, g: Gens, p: int)
    requires
        SatJob::Single(j).wf(g),
        0 <= p < j.witness@.len(),
    ensures
        ({
            let m = j.witness@[p];
            let z = flat(rows(m.rows@));
            &&& m.poly@ == z
            &&& m.comm.c@ == plain_commitment(z, g)
        }),
{
    assert(j.witness@[p].wf(g));
}

} // verus!
