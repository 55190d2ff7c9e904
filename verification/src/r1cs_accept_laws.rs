//! A proof of satisfiability of what is satisfied is accepted.
use crate::accept_laws::openable;
use crate::block_accept_laws::{
    block_statement, gens_agree, law_block_accepted, BlockChecked, BlockStatement,
};
use crate::block_laws::{block_canonical, block_satisfied};
use crate::committed::{mat_commitments, said_pairs};
use crate::commitments::Gens;
use crate::consis_accept_laws::{execution_checked, law_execution_accepted, ExecutionChecked};
use crate::consis_laws::{execution_canonical, execution_satisfied, one_program};
use crate::dense_mlpoly::said_commitment;
use crate::group::{encodes_uniquely, CompressedGroup};
use crate::r1cs_open_laws::{block_invertible, block_openable, execution_invertible};
use crate::r1csgens::R1CSGens;
use crate::r1csinstance::R1CS;
use crate::r1csproof::{ConsisInput, R1CSProofView, R1CSStatement};
use crate::scalar::Scalar;
use crate::sparse_mlpoly::plain_commitment;
use crate::transcript::{named, History};
use crate::vectors::flat;
use vstd::prelude::*;

verus! {

/// What a verifier of a proof of satisfiability knows.
pub struct PublicStatement {
    /// The numbers of copies of the blocks.
    pub copies: Seq<nat>,
    /// The largest number of copies.
    pub max: nat,
    /// The number of variables, and of inputs, of a copy.
    pub width: nat,
    /// The constraints of the blocks.
    pub inst: R1CS,
    /// The generators for the blocks.
    pub gens: R1CSGens,
    /// The execution, its constraints and its generators.
    pub consis: ConsisInput,
}

/// What a verifier of a proof of satisfiability comes to.
pub struct SatisfiabilityChecked {
    /// Whether the proof holds.
    pub holds: bool,
    /// What the verifier comes to of the blocks.
    pub block: BlockChecked,
    /// What the verifier comes to of the execution.
    pub execution: ExecutionChecked,
}

/// The history after the first `k` commitments of two lists, in turn.
pub open spec fn told_pairs(
    h: History,
    a: Seq<Seq<CompressedGroup>>,
    b: Seq<Seq<CompressedGroup>>,
    k: nat,
) -> History
    decreases k,
{
    if k == 0 {
        h
    } else {
        let h1 = told_pairs(h, a, b, (k - 1) as nat);
        said_commitment(
            said_commitment(h1, "poly_commitment"@, a[k - 1]),
            "poly_commitment"@,
            b[k - 1],
        )
    }
}

/// What a verifier finds of a proof of satisfiability.
pub open spec fn satisfiability_checked(
    s: PublicStatement,
    p: R1CSProofView,
    th: History,
) -> SatisfiabilityChecked {
    let n = s.copies.len();
    let h1 = told_pairs(named(th, "R1CS proof"), p.comm_vars, p.comm_io, n);
    let h2 = said_commitment(h1, "poly_commitment"@, p.comm_exec);
    let statement = BlockStatement {
        copies: s.copies,
        max: s.max,
        width: s.width,
        inst: s.inst,
        gens: s.gens,
        vars: p.comm_vars,
        inputs: p.comm_io,
    };
    let block = statement.checked(p.block, h2);
    let execution = execution_checked(s.consis, p.consis, block.th);
    let executed = plain_commitment(flat(s.consis.executed), s.consis.gens.gens_pc@.0);
    let sized = p.comm_vars.len() == n && p.comm_io.len() == n;
    SatisfiabilityChecked {
        holds: sized && p.comm_exec == executed && block.holds && execution.holds,
        block,
        execution,
    }
}

/// What a verifier knows of what a prover proves.
pub open spec fn public_statement(s: R1CSStatement) -> PublicStatement {
    PublicStatement {
        copies: s.block.vars.map_values(|v: Seq<Seq<Scalar>>| v.len()),
        max: s.block.max,
        width: s.block.width,
        inst: s.block.inst,
        gens: s.block.gens,
        consis: s.consis,
    }
}

/// Whether the constraints of blocks and execution are satisfied.
pub open spec fn satisfied(s: R1CSStatement) -> bool {
    &&& block_canonical(s.block)
    &&& block_satisfied(s.block)
    &&& execution_canonical(s.consis)
    &&& execution_satisfied(s.consis)
    &&& one_program(s.consis)
}

/// Whether the generators can open what is committed to.
pub open spec fn all_openable(s: R1CSStatement) -> bool {
    let pc = s.consis.gens.gens_pc@;
    &&& block_openable(s.block)
    &&& gens_agree(s.block.gens)
    &&& openable(pc, pc.0, (s.consis.nq() + s.consis.ny() - 1) as nat)
    &&& gens_agree(s.consis.gens)
}

/// Whether the challenges of all openings in a proof have inverses.
pub open spec fn challenges_invertible(s: R1CSStatement, th: History, rh: History) -> bool {
    let b = s.blocks(th, rh);
    &&& block_invertible(s.block, s.said(th), rh)
    &&& execution_invertible(s.consis, b.th, b.rh)
}

/// Telling the commitments is telling what is committed to.
proof fn lemma_told(
    h: History,
    a: Seq<Seq<Seq<Scalar>>>,
    b: Seq<Seq<Seq<Scalar>>>,
    g: Gens,
    k: nat,
)
    requires
        k <= a.len(),
        k <= b.len(),
    ensures
        told_pairs(h, mat_commitments(a, g), mat_commitments(b, g), k) == said_pairs(h, a, b, g, k),
    decreases k,
{
    if k > 0 {
        lemma_told(h, a, b, g, (k - 1) as nat);
    }
}

/// The proof that satisfied blocks and a satisfied execution satisfy their
/// constraints is accepted, and leaves prover and verifier with the same points
/// and the same transcript, wherever the challenges of the openings have
/// inverses.
pub proof fn law_satisfiability_accepted(s: R1CSStatement, th: History, rh: History)
    requires
        encodes_uniquely(),
        s.wf(),
        satisfied(s),
        all_openable(s),
        challenges_invertible(s, th, rh),
    ensures
        ({
            let (b, c) = (s.blocks(th, rh), s.execution(th, rh));
            satisfiability_checked(public_statement(s), s.proof_view(th, rh), th) == (
            SatisfiabilityChecked {
                holds: true,
                block: BlockChecked {
                    holds: true,
                    rp: b.rp,
                    rq_rev: b.rq_rev,
                    rx: b.rx,
                    ry: b.ry,
                    th: b.th,
                },
                execution: ExecutionChecked {
                    holds: true,
                    rq: c.rq,
                    rx: c.rx,
                    ry: c.ry,
                    th: c.th,
                },
            })
        }),
{
    let b = s.blocks(th, rh);
    lemma_told(
        named(th, "R1CS proof"),
        s.block.vars,
        s.block.inputs,
        s.block.gens.gens_pc@.0,
        s.block.vars.len(),
    );
    law_block_accepted(s.block, s.said(th), rh);
    law_execution_accepted(s.consis, b.th, b.rh);
    let p = s.proof_view(th, rh);
    let t = block_statement(s.block);
    assert(p.comm_vars == t.vars && p.comm_io == t.inputs);
    assert(public_statement(s).copies =~= t.copies);
}

} // verus!
