use merlin::Transcript;
use spartan_parallel::errors::ProofVerifyError;
use spartan_parallel::jobs::{Challenges, EvalCheck, EvalJob, SatCheck, SatJob};
use spartan_parallel::math::log_2;
use spartan_parallel::r1csgens::R1CSGens;
use spartan_parallel::random::RandomTape;
use spartan_parallel::scalar::Scalar;
use spartan_parallel::transcript::{append_scalar, challenge_scalar, challenge_vector};
use spartan_parallel::{
    Assignment, ComputationCommitment, ComputationDecommitment, Instance, SNARKGens, SNARK,
};
use std::cell::RefCell;

const NUM_VARS: usize = 8;
const CUTOFF: usize = 4;

fn num(x: u64) -> [u8; 32] {
    Scalar::from_u64(x).to_bytes()
}

fn row(x: [u64; NUM_VARS]) -> Assignment {
    Assignment::new(&x.map(num)).unwrap()
}

struct Part {
    inst: Instance,
    comm: ComputationCommitment,
    decomm: ComputationDecommitment,
    gens: SNARKGens,
}

fn part(num_instances: usize, seed: u64) -> Part {
    let m: Vec<Vec<(usize, usize, [u8; 32])>> =
        (0..num_instances).map(|p| vec![(p % 2, p, num(seed)), (1, 3, num(2))]).collect();
    let inst = Instance::new(num_instances, 2, NUM_VARS, &m, &m, &m).unwrap();
    let gens = SNARKGens::new(2, NUM_VARS, num_instances, 2 * num_instances);
    let (comm, decomm) = SNARK::encode(&inst, &gens);
    Part { inst, comm, decomm, gens }
}

#[derive(Clone)]
struct World {
    vars: Vec<Vec<Assignment>>,
    inputs: Vec<Vec<Assignment>>,
    run: Vec<Assignment>,
    mems: Vec<Vec<Assignment>>,
    input: Vec<[u8; 32]>,
    output: Vec<[u8; 32]>,
}

fn world() -> World {
    // valid, block number, two inputs, constant, block number, two outputs
    let a = [1, 1, 10, 11, 1, 2, 20, 21];
    let b = [1, 2, 20, 21, 1, 1, 30, 31];
    let c = [1, 1, 30, 31, 1, 3, 40, 41];
    let none = [0; NUM_VARS];
    let vars = [5, 6, 7, 8, 9, 10, 11, 12];
    let mem = [0, 0, 0, 0, 100, 7, 101, 8];
    World {
        vars: vec![vec![row(vars), row(vars)], vec![row(vars)]],
        inputs: vec![vec![row(a), row(c)], vec![row(b)]],
        run: vec![row(a), row(b), row(c), row(none)],
        mems: vec![vec![row(mem), row(mem)], vec![row(mem)]],
        input: vec![num(10), num(11)],
        output: vec![num(40), num(41)],
    }
}

// Runs prover and verifier, with steps that stand for the proofs of the parts:
// they draw their points from the transcript and say them back. `spoil` names
// a step of the verifier that refuses.
fn run(w: World, spoil: usize) -> Result<bool, ProofVerifyError> {
    let parts: Vec<Part> =
        [2, 1, 1, 1, 1, 1, 1, 2, 1].iter().enumerate().map(|(i, n)| part(*n, 3 + i as u64)).collect();
    let gens = R1CSGens::new(b"gens_r1cs_sat", 2, 32);
    let gens_block = R1CSGens::new(b"gens_r1cs_sat", 2, 16);
    let gens_total = R1CSGens::new(b"gens_r1cs_sat", 2, 32);
    let sizes: RefCell<Vec<usize>> = RefCell::new(Vec::new());
    let sat = |job: SatJob<'_>, mut t: Transcript, tape: RandomTape| {
        let (inst, batch) = match &job {
            SatJob::Batch(j) => {
                assert_eq!(j.num_secs, j.secs.len());
                (j.inst, true)
            }
            SatJob::Single(j) => {
                assert_eq!(j.witness.len(), j.num_instances);
                (j.inst, false)
            }
        };
        let n = if batch { log_2(inst.get_num_instances()) } else { 0 };
        sizes.borrow_mut().push(n);
        let rp = challenge_vector(&mut t, "rp", n);
        let rx = challenge_vector(&mut t, "rx", log_2(inst.get_num_cons()));
        let ry = challenge_vector(&mut t, "ry", log_2(inst.get_num_vars()));
        ((), Challenges { rp, rq: Vec::new(), rx, ry }, t, tape)
    };
    let eval = |job: EvalJob<'_>, mut t: Transcript, tape: RandomTape| {
        append_scalar(&mut t, "sum", &job.evals.0.plus(&job.evals.1).plus(&job.evals.2));
        ((), t, tape)
    };
    let mut t = Transcript::new(b"snark");
    let p = &parts;
    let proof = SNARK::prove(
        1,
        3,
        &w.input,
        &w.output,
        2,
        NUM_VARS,
        CUTOFF,
        4,
        2,
        2,
        2,
        &vec![2, 1],
        &p[0].inst,
        &p[0].comm,
        &p[0].decomm,
        &p[0].gens,
        4,
        &p[1].inst,
        &p[1].comm,
        &p[1].decomm,
        &p[1].gens,
        1,
        &p[2].inst,
        &p[2].comm,
        &p[2].decomm,
        &p[2].gens,
        &p[3].inst,
        &p[3].comm,
        &p[3].decomm,
        &p[3].gens,
        &p[4].inst,
        &p[4].comm,
        &p[4].decomm,
        &p[4].gens,
        1,
        &p[5].inst,
        &p[5].comm,
        &p[5].decomm,
        &p[5].gens,
        &p[6].inst,
        &p[6].comm,
        &p[6].decomm,
        &p[6].gens,
        vec![1, 2],
        &p[7].inst,
        &p[7].comm,
        &p[7].decomm,
        &p[7].gens,
        &p[8].inst,
        &p[8].comm,
        &p[8].decomm,
        &p[8].gens,
        w.vars,
        w.inputs,
        w.run,
        w.mems,
        &gens,
        &gens_block,
        &gens_total,
        sat,
        eval,
        &mut t,
    );
    let step = RefCell::new(0);
    let next = || {
        *step.borrow_mut() += 1;
        if *step.borrow() == spoil {
            Err(ProofVerifyError::InternalError)
        } else {
            Ok(())
        }
    };
    let check_sat = |job: SatCheck<'_>, _proof: &(), mut t: Transcript| {
        if let Err(e) = next() {
            append_scalar(&mut t, "refused", &Scalar::one());
            return (Err(e), t);
        }
        assert_eq!(job.num_secs, job.comms.len());
        let n = sizes.borrow_mut().remove(0);
        let rp = challenge_vector(&mut t, "rp", n);
        let rx = challenge_vector(&mut t, "rx", 1);
        let ry = challenge_vector(&mut t, "ry", 3);
        (Ok(Challenges { rp, rq: Vec::new(), rx, ry }), t)
    };
    let check_eval = |job: EvalCheck<'_>, _proof: &(), mut t: Transcript| {
        if let Err(e) = next() {
            return (Err(e), t);
        }
        append_scalar(&mut t, "sum", &job.evals.0.plus(&job.evals.1).plus(&job.evals.2));
        (Ok(()), t)
    };
    let mut u = Transcript::new(b"snark");
    let answer = proof.verify(
        1,
        3,
        &w.input,
        &w.output,
        2,
        NUM_VARS,
        CUTOFF,
        4,
        2,
        2,
        2,
        &vec![2, 1],
        2,
        &p[0].comm,
        &p[0].gens,
        4,
        2,
        &p[1].comm,
        &p[1].gens,
        1,
        &p[2].comm,
        &p[2].gens,
        2,
        &p[3].comm,
        &p[3].gens,
        2,
        &p[4].comm,
        &p[4].gens,
        1,
        &p[5].comm,
        &p[5].gens,
        &p[6].comm,
        &p[6].gens,
        2,
        &p[7].comm,
        &p[7].gens,
        // of the combinations of addresses only the commitment counts
        99,
        &p[8].comm,
        &p[0].gens,
        &gens,
        &gens_block,
        &gens_total,
        check_sat,
        check_eval,
        &mut u,
    );
    if answer.is_err() {
        // the transcript has moved on to where the refusal came
        let mut fresh = Transcript::new(b"snark");
        assert!(!challenge_scalar(&mut fresh, "c").equals(&challenge_scalar(&mut u, "c")));
    }
    answer?;
    Ok(challenge_scalar(&mut t, "c").equals(&challenge_scalar(&mut u, "c")))
}

#[test]
fn an_honest_proof_is_accepted() {
    assert_eq!(run(world(), 0), Ok(true));
}

#[test]
fn a_refused_part_refuses_the_proof() {
    for step in [1, 2, 7, 20] {
        assert_eq!(run(world(), step), Err(ProofVerifyError::InternalError));
    }
    assert_eq!(run(world(), 21), Ok(true));
}

#[test]
fn an_execution_that_is_no_permutation_is_refused() {
    let mut w = world();
    w.run[1] = row([1, 2, 20, 21, 1, 1, 30, 32]);
    assert_eq!(run(w, 0), Err(ProofVerifyError::InternalError));
    let mut w = world();
    w.run[3] = w.run[2].clone();
    assert_eq!(run(w, 0), Err(ProofVerifyError::InternalError));
}

#[test]
fn wrong_inputs_and_outputs_are_refused() {
    let mut w = world();
    w.input[1] = num(12);
    assert_eq!(run(w, 0), Err(ProofVerifyError::InternalError));
    let mut w = world();
    w.output[0] = num(12);
    assert_eq!(run(w, 0), Err(ProofVerifyError::InternalError));
}

#[test]
fn the_order_of_execution_does_not_matter() {
    // the blocks instance by instance are the same
    let mut w = world();
    w.inputs[0].swap(0, 1);
    assert_eq!(run(w, 0), Ok(true));
}

#[test]
fn lists_may_go_on_behind_the_last_block() {
    let mut w = world();
    w.vars.push(vec![row([3; NUM_VARS])]);
    w.inputs.push(vec![row([1; NUM_VARS]), row([2; NUM_VARS])]);
    w.mems.push(Vec::new());
    assert_eq!(run(w, 0), Ok(true));
}
