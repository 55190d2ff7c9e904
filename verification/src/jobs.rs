//! What the proof of a program asks of the proofs of its parts.
//!
//! A part is proved by two outside steps: one for the satisfiability of its
//! constraints, one for the values of its matrices. Both are handed in as
//! functions; a job is what such a function is given.
use crate::commitments::Gens;
use crate::committed::{all_wf, mats_of, Committed};
use crate::dense_mlpoly::PolyCommitment;
use crate::group::CompressedGroup;
use crate::r1csgens::R1CSGens;
use crate::r1csinstance::{R1CSInstance, R1CS};
use crate::scalar::Scalar;
use crate::sparse_mlpoly::{R1CSCommitment, R1CSCommitmentGens, R1CSDecommitment};
use vstd::prelude::*;

verus! {

/// The point at which a satisfiability proof leaves its matrices: the
/// coordinates of instances, proofs, rows and columns.
pub struct Challenges {
    /// The coordinates of the instance.
    pub rp: Vec<Scalar>,
    /// The coordinates of the proof.
    pub rq: Vec<Scalar>,
    /// The coordinates of the row.
    pub rx: Vec<Scalar>,
    /// The coordinates of the column.
    pub ry: Vec<Scalar>,
}

/// To prove many copies of instances.
pub struct BatchJob<'a> {
    /// The number of sections of an assignment.
    pub num_secs: usize,
    /// The number of sections that all copies share.
    pub num_shared: usize,
    /// The number of instances.
    pub num_instances: usize,
    /// The largest number of copies of an instance.
    pub max_num_proofs: usize,
    /// The numbers of copies.
    pub num_proofs: Vec<usize>,
    /// The number of values of a section.
    pub num_vars: usize,
    /// The constraints.
    pub inst: &'a R1CSInstance,
    /// The generators.
    pub gens: &'a R1CSGens,
    /// The sections, each with a matrix for each instance.
    pub secs: Vec<&'a Vec<Committed>>,
}

/// To prove one system of constraints over all rows of a matrix.
pub struct SingleJob<'a> {
    /// The number of instances.
    pub num_instances: usize,
    /// The number of constraints for one row.
    pub num_cons_base: usize,
    /// The number of values of a row.
    pub num_vars: usize,
    /// The largest number of rows that the constraints are made for.
    pub max_num_proofs: usize,
    /// The numbers of rows.
    pub num_proofs: Vec<usize>,
    /// The constraints.
    pub inst: &'a R1CSInstance,
    /// The generators.
    pub gens: &'a R1CSGens,
    /// A matrix for each instance.
    pub witness: &'a Vec<Committed>,
}

/// To prove the satisfiability of constraints.
pub enum SatJob<'a> {
    /// Many copies of instances.
    Batch(BatchJob<'a>),
    /// One system over all rows.
    Single(SingleJob<'a>),
}

/// What a `SatJob` asks for.
#[verifier::ext_equal]
pub struct SatTask {
    /// Whether many copies of instances are proved.
    pub batch: bool,
    /// The number of sections that all copies share.
    pub num_shared: nat,
    /// The number of instances.
    pub num_instances: nat,
    /// The number of constraints for one row, where one system is proved.
    pub num_cons_base: nat,
    /// The largest number of copies or rows.
    pub max_num_proofs: nat,
    /// The numbers of copies or rows.
    pub num_proofs: Seq<usize>,
    /// The number of values of a section.
    pub num_vars: nat,
    /// The constraints.
    pub inst: R1CS,
    /// The generators.
    pub gens: R1CSGens,
    /// The sections.
    pub secs: Seq<Seq<Seq<Seq<Scalar>>>>,
}

/// The matrices of sections.
pub open spec fn sections_of(s: Seq<&Vec<Committed>>) -> Seq<Seq<Seq<Seq<Scalar>>>> {
    s.map_values(|l: &Vec<Committed>| mats_of(l@))
}

impl<'a> SatJob<'a> {
    /// What is asked for.
    pub open spec fn task(self) -> SatTask {
        match self {
            SatJob::Batch(j) => SatTask {
                batch: true,
                num_shared: j.num_shared as nat,
                num_instances: j.num_instances as nat,
                num_cons_base: 0,
                max_num_proofs: j.max_num_proofs as nat,
                num_proofs: j.num_proofs@,
                num_vars: j.num_vars as nat,
                inst: j.inst@,
                gens: *j.gens,
                secs: sections_of(j.secs@),
            },
            SatJob::Single(j) => SatTask {
                batch: false,
                num_shared: 0,
                num_instances: j.num_instances as nat,
                num_cons_base: j.num_cons_base as nat,
                max_num_proofs: j.max_num_proofs as nat,
                num_proofs: j.num_proofs@,
                num_vars: j.num_vars as nat,
                inst: j.inst@,
                gens: *j.gens,
                secs: seq![mats_of(j.witness@)],
            },
        }
    }

    /// The sections are counted, and hold the polynomials and commitments of
    /// their matrices.
    pub open spec fn wf(self, g: Gens) -> bool {
        match self {
            SatJob::Batch(j) => {
                &&& j.num_secs == j.secs@.len()
                &&& forall|i: int| 0 <= i < j.secs@.len() ==> all_wf((#[trigger] j.secs@[i])@, g)
            },
            SatJob::Single(j) => all_wf(j.witness@, g),
        }
    }
}

/// To prove the values of three matrices at a point.
pub struct EvalJob<'a> {
    /// What opens the commitment to the matrices.
    pub decomm: &'a R1CSDecommitment,
    /// The coordinates of the row.
    pub rx: Vec<Scalar>,
    /// The coordinates of the column.
    pub ry: Vec<Scalar>,
    /// The values.
    pub evals: (Scalar, Scalar, Scalar),
    /// The generators.
    pub gens: &'a R1CSCommitmentGens,
}

/// To check the satisfiability of constraints.
pub struct SatCheck<'a> {
    /// Whether many copies of instances were proved.
    pub batch: bool,
    /// The number of sections of an assignment.
    pub num_secs: usize,
    /// The number of sections that all copies share.
    pub num_shared: usize,
    /// The number of instances.
    pub num_instances: usize,
    /// The largest number of copies or rows.
    pub max_num_proofs: usize,
    /// The numbers of copies or rows.
    pub num_proofs: Vec<usize>,
    /// The number of values of a section.
    pub num_vars: usize,
    /// The number of constraints, of an instance or for one row.
    pub num_cons: usize,
    /// The generators.
    pub gens: &'a R1CSGens,
    /// The values of the three matrices.
    pub evals: (Scalar, Scalar, Scalar),
    /// The commitments to the sections.
    pub comms: Vec<&'a Vec<PolyCommitment>>,
}

/// What a `SatCheck` asks for.
#[verifier::ext_equal]
pub struct CheckTask {
    /// Whether many copies of instances were proved.
    pub batch: bool,
    /// The number of sections that all copies share.
    pub num_shared: nat,
    /// The number of instances.
    pub num_instances: nat,
    /// The largest number of copies or rows.
    pub max_num_proofs: nat,
    /// The numbers of copies or rows.
    pub num_proofs: Seq<usize>,
    /// The number of values of a section.
    pub num_vars: nat,
    /// The number of constraints, of an instance or for one row.
    pub num_cons: nat,
    /// The generators.
    pub gens: R1CSGens,
    /// The values of the three matrices.
    pub evals: (Scalar, Scalar, Scalar),
    /// The commitments to the sections.
    pub comms: Seq<Seq<Seq<CompressedGroup>>>,
}

/// The commitments of a list.
pub open spec fn points_of(l: Seq<PolyCommitment>) -> Seq<Seq<CompressedGroup>> {
    l.map_values(|c: PolyCommitment| c@)
}

/// The commitments of sections.
pub open spec fn section_points(s: Seq<&Vec<PolyCommitment>>) -> Seq<Seq<Seq<CompressedGroup>>> {
    s.map_values(|l: &Vec<PolyCommitment>| points_of(l@))
}

impl<'a> SatCheck<'a> {
    /// What is asked for.
    pub open spec fn task(self) -> CheckTask {
        CheckTask {
            batch: self.batch,
            num_shared: self.num_shared as nat,
            num_instances: self.num_instances as nat,
            max_num_proofs: self.max_num_proofs as nat,
            num_proofs: self.num_proofs@,
            num_vars: self.num_vars as nat,
            num_cons: self.num_cons as nat,
            gens: *self.gens,
            evals: self.evals,
            comms: section_points(self.comms@),
        }
    }
}

/// To check the values of three matrices at a point.
pub struct EvalCheck<'a> {
    /// The commitment to the matrices.
    pub comm: &'a R1CSCommitment,
    /// The coordinates of the row.
    pub rx: Vec<Scalar>,
    /// The coordinates of the column.
    pub ry: Vec<Scalar>,
    /// The values.
    pub evals: (Scalar, Scalar, Scalar),
    /// The generators.
    pub gens: &'a R1CSCommitmentGens,
}

} // verus!
