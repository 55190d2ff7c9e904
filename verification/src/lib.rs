//! Succinct proofs that a program was executed.
//!
//! A program is a set of blocks, each a system of rank-one constraints. A
//! proof shows that every executed block satisfies its constraints, that each
//! takes up where the one before it ended, that the blocks in the order of
//! execution are the blocks instance by instance, and that the execution
//! starts and ends as claimed.
pub mod accept_laws;
pub mod asking_laws;
pub mod binding_laws;
pub mod blinded_laws;
pub mod block_accept_laws;
pub mod block_laws;
pub mod bullet;
pub mod bullet_laws;
pub mod check_laws;
pub mod claim_laws;
pub mod commitments;
pub mod committed;
pub mod comms;
pub mod consis_accept_laws;
pub mod consis_laws;
pub mod dense_mlpoly;
pub mod digest_laws;
pub mod encoding_laws;
pub mod errors;
pub mod field;
pub mod group;
pub mod hiding_laws;
pub mod instance;
pub mod io_proofs;
pub mod jobs;
pub mod math;
pub mod matrix_laws;
pub mod message_laws;
pub mod middle_laws;
pub mod nizk;
pub mod opening_laws;
pub mod openings;
pub mod order_laws;
pub mod outcome_laws;
pub mod parameter_laws;
pub mod parts;
pub mod poly_eval;
pub mod poly_laws;
pub mod program_laws;
pub mod prover;
pub mod public_laws;
pub mod r1cs_accept_laws;
pub mod r1cs_laws;
pub mod r1cs_open_laws;
pub mod r1csgens;
pub mod r1csinstance;
pub mod r1csproof;
pub mod random;
pub mod reading_laws;
pub mod record_laws;
pub mod refusal_laws;
pub mod scalar;
pub mod section_laws;
pub mod sigma;
pub mod sigma_laws;
pub mod snark;
pub mod snark_laws;
pub mod snark_verify;
pub mod sparse;
pub mod sparse_mlpoly;
pub mod statement;
pub mod sumcheck;
pub mod sumcheck_accept_laws;
pub mod sumcheck_laws;
pub mod sums;
pub mod table_laws;
pub mod tables;
pub mod transcript;
pub mod unipoly;
pub mod value_laws;
pub mod vectors;
pub mod verify_laws;
pub mod weight_laws;
pub mod witness;
pub mod witness_laws;

pub use instance::{
    Assignment, ComputationCommitment, ComputationDecommitment, InputsAssignment, Instance,
    MemsAssignment, SNARKGens, VarsAssignment,
};
pub use snark::SNARK;
