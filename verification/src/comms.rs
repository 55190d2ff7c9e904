//! The commitments to the witnesses of a program.
use crate::commitments::Gens;
use crate::committed::{mat_commitments, said_matrices, said_pairs};
use crate::dense_mlpoly::{said_commitment, PolyCommitment};
use crate::group::CompressedGroup;
use crate::jobs::points_of;
use crate::statement::WitnessMats;
use crate::transcript::{history, History};
use merlin::Transcript;
use vstd::prelude::*;

verus! {

/// The commitments to all witnesses.
pub struct Commitments {
    /// To the variables of the blocks.
    pub block_vars: Vec<PolyCommitment>,
    /// To the inputs and outputs of the blocks.
    pub block_inputs: Vec<PolyCommitment>,
    /// To the inputs and outputs in the order of execution.
    pub exec_inputs: Vec<PolyCommitment>,
    /// To the shared witness.
    pub perm_w0: Vec<PolyCommitment>,
    /// To the weighted rows of the blocks.
    pub perm_block_w2: Vec<PolyCommitment>,
    /// To the accumulators of the blocks.
    pub perm_block_w3: Vec<PolyCommitment>,
    /// To the weighted rows of the execution.
    pub perm_exec_w2: Vec<PolyCommitment>,
    /// To the accumulator of the execution.
    pub perm_exec_w3: Vec<PolyCommitment>,
    /// To the weighted halves of the rows of the execution.
    pub consis_w2: Vec<PolyCommitment>,
    /// To the combinations of the halves.
    pub consis_w3: Vec<PolyCommitment>,
    /// To the accesses to memory and their accumulators.
    pub mem_block_w1: Vec<PolyCommitment>,
}

/// What `Commitments` holds.
#[verifier::ext_equal]
pub struct WitnessComms {
    /// To the variables of the blocks.
    pub block_vars: Seq<Seq<CompressedGroup>>,
    /// To the inputs and outputs of the blocks.
    pub block_inputs: Seq<Seq<CompressedGroup>>,
    /// To the inputs and outputs in the order of execution.
    pub exec_inputs: Seq<Seq<CompressedGroup>>,
    /// To the shared witness.
    pub perm_w0: Seq<Seq<CompressedGroup>>,
    /// To the weighted rows of the blocks.
    pub perm_block_w2: Seq<Seq<CompressedGroup>>,
    /// To the accumulators of the blocks.
    pub perm_block_w3: Seq<Seq<CompressedGroup>>,
    /// To the weighted rows of the execution.
    pub perm_exec_w2: Seq<Seq<CompressedGroup>>,
    /// To the accumulator of the execution.
    pub perm_exec_w3: Seq<Seq<CompressedGroup>>,
    /// To the weighted halves of the rows of the execution.
    pub consis_w2: Seq<Seq<CompressedGroup>>,
    /// To the combinations of the halves.
    pub consis_w3: Seq<Seq<CompressedGroup>>,
    /// To the accesses to memory and their accumulators.
    pub mem_block_w1: Seq<Seq<CompressedGroup>>,
}

/// The commitments to witnesses.
pub open spec fn witness_comms(w: WitnessMats, g: Gens) -> WitnessComms {
    WitnessComms {
        block_vars: mat_commitments(w.block_vars, g),
        block_inputs: mat_commitments(w.block_inputs, g),
        exec_inputs: mat_commitments(w.exec_inputs, g),
        perm_w0: mat_commitments(w.perm_w0, g),
        perm_block_w2: mat_commitments(w.perm_block_w2, g),
        perm_block_w3: mat_commitments(w.perm_block_w3, g),
        perm_exec_w2: mat_commitments(w.perm_exec_w2, g),
        perm_exec_w3: mat_commitments(w.perm_exec_w3, g),
        consis_w2: mat_commitments(w.consis_w2, g),
        consis_w3: mat_commitments(w.consis_w3, g),
        mem_block_w1: mat_commitments(w.mem_block_w1, g),
    }
}

impl View for Commitments {
    type V = WitnessComms;

    open spec fn view(&self) -> WitnessComms {
        WitnessComms {
            block_vars: points_of(self.block_vars@),
            block_inputs: points_of(self.block_inputs@),
            exec_inputs: points_of(self.exec_inputs@),
            perm_w0: points_of(self.perm_w0@),
            perm_block_w2: points_of(self.perm_block_w2@),
            perm_block_w3: points_of(self.perm_block_w3@),
            perm_exec_w2: points_of(self.perm_exec_w2@),
            perm_exec_w3: points_of(self.perm_exec_w3@),
            consis_w2: points_of(self.consis_w2@),
            consis_w3: points_of(self.consis_w3@),
            mem_block_w1: points_of(self.mem_block_w1@),
        }
    }
}

/// The history after the first `k` commitments of a list.
pub open spec fn said_list(h: History, l: Seq<Seq<CompressedGroup>>, k: nat) -> History
    decreases k,
{
    if k == 0 {
        h
    } else {
        said_commitment(said_list(h, l, (k - 1) as nat), "poly_commitment"@, l[k - 1])
    }
}

/// The history after the first `k` commitments of two lists, in turn.
pub open spec fn said_two_lists(
    h: History,
    a: Seq<Seq<CompressedGroup>>,
    b: Seq<Seq<CompressedGroup>>,
    k: nat,
) -> History
    decreases k,
{
    if k == 0 {
        h
    } else {
        said_commitment(
            said_commitment(
                said_two_lists(h, a, b, (k - 1) as nat),
                "poly_commitment"@,
                a[k - 1],
            ),
            "poly_commitment"@,
            b[k - 1],
        )
    }
}

/// Says the first `n` commitments of a list.
pub(crate) fn append_list(l: &Vec<PolyCommitment>, n: usize, t: &mut Transcript)
    requires
        n <= l@.len(),
    ensures
        history(*final(t)) == said_list(history(*old(t)), points_of(l@), n as nat),
{
    let ghost h = history(*t);
    let mut i: usize = 0;
    while i < n
        invariant
            i <= n <= l@.len(),
            history(*t) == said_list(h, points_of(l@), i as nat),
        decreases n - i,
    {
        l[i].append_to_transcript("poly_commitment", t);
        i += 1;
    }
}

/// Says the first `n` commitments of two lists, in turn.
pub(crate) fn append_two_lists(
    a: &Vec<PolyCommitment>,
    b: &Vec<PolyCommitment>,
    n: usize,
    t: &mut Transcript,
)
    requires
        n <= a@.len(),
        n <= b@.len(),
    ensures
        history(*final(t)) == said_two_lists(
            history(*old(t)),
            points_of(a@),
            points_of(b@),
            n as nat,
        ),
{
    let ghost h = history(*t);
    let mut i: usize = 0;
    while i < n
        invariant
            i <= n <= a@.len(),
            n <= b@.len(),
            history(*t) == said_two_lists(h, points_of(a@), points_of(b@), i as nat),
        decreases n - i,
    {
        a[i].append_to_transcript("poly_commitment", t);
        b[i].append_to_transcript("poly_commitment", t);
        i += 1;
    }
}

/// To say matrices is to say the commitments to them.
pub proof fn lemma_said_list(h: History, m: Seq<Seq<Seq<crate::scalar::Scalar>>>, g: Gens, k: nat)
    requires
        k <= m.len(),
    ensures
        said_matrices(h, m, g, k) == said_list(h, mat_commitments(m, g), k),
    decreases k,
{
    if k > 0 {
        lemma_said_list(h, m, g, (k - 1) as nat);
    }
}

/// To say matrices of two lists in turn is to say the commitments to them.
pub proof fn lemma_said_two_lists(
    h: History,
    a: Seq<Seq<Seq<crate::scalar::Scalar>>>,
    b: Seq<Seq<Seq<crate::scalar::Scalar>>>,
    g: Gens,
    k: nat,
)
    requires
        k <= a.len(),
        k <= b.len(),
    ensures
        said_pairs(h, a, b, g, k) == said_two_lists(
            h,
            mat_commitments(a, g),
            mat_commitments(b, g),
            k,
        ),
    decreases k,
{
    if k > 0 {
        lemma_said_two_lists(h, a, b, g, (k - 1) as nat);
    }
}

} // verus!
