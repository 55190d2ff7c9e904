use merlin::Transcript;
use spartan_parallel::dense_mlpoly::{DensePolynomial, PolyCommitmentGens};
use spartan_parallel::io_proofs::IOProofs;
use spartan_parallel::math::to_bin_array;
use spartan_parallel::poly_eval::PolyEvalProof;
use spartan_parallel::r1csgens::R1CSGens;
use spartan_parallel::r1csinstance::R1CSInstance;
use spartan_parallel::r1csproof::R1CSProof;
use spartan_parallel::random::RandomTape;
use spartan_parallel::scalar::Scalar;
use spartan_parallel::transcript::challenge_scalar;

fn s(x: u64) -> Scalar {
    Scalar::from_u64(x)
}

fn open(z: Vec<Scalar>, r: Vec<Scalar>, claimed: Scalar) -> bool {
    let gens = PolyCommitmentGens::new(r.len(), b"poly");
    let poly = DensePolynomial::new(z);
    let comm = poly.commit(&gens);
    let mut t = Transcript::new(b"open");
    let mut tape = RandomTape::new("proof");
    let (proof, _) =
        PolyEvalProof::prove(&poly, None, &r, &claimed, None, &gens, &mut t, &mut tape);
    let mut u = Transcript::new(b"open");
    let ok = proof.verify_plain(&gens, &mut u, &r, &claimed, &comm).is_ok();
    if ok {
        // both sides end with the same transcript
        assert!(challenge_scalar(&mut t, "c").equals(&challenge_scalar(&mut u, "c")));
    }
    ok
}

#[test]
fn true_values_open_and_others_do_not() {
    let z: Vec<Scalar> = (0..16).map(|i| s(i * i + 1)).collect();
    let r: Vec<Scalar> = (0..4).map(|_| Scalar::random()).collect();
    let value = DensePolynomial::new(z.clone()).evaluate(&r);
    assert!(open(z.clone(), r.clone(), value));
    assert!(!open(z.clone(), r, value.plus(&s(1))));
    for i in 0..16 {
        assert!(open(z.clone(), to_bin_array(i as usize, 4), s(i * i + 1)));
    }
    // odd and smallest numbers of coordinates
    let r: Vec<Scalar> = (0..3).map(|_| Scalar::random()).collect();
    let value = DensePolynomial::new(z[..8].to_vec()).evaluate(&r);
    assert!(open(z[..8].to_vec(), r, value));
    assert!(open(z[..1].to_vec(), vec![], s(1)));
    assert!(open(z[..2].to_vec(), vec![s(0)], s(1)));
}

#[test]
fn blinded_values_open() {
    let gens = PolyCommitmentGens::new(4, b"poly");
    let z: Vec<Scalar> = (0..16).map(|i| s(3 * i + 2)).collect();
    let poly = DensePolynomial::new(z);
    let mut tape = RandomTape::new("proof");
    let (comm, blinds) = poly.commit_blinded(&gens, &mut tape);
    assert_eq!(blinds.len(), 4);
    let r: Vec<Scalar> = (0..4).map(|_| Scalar::random()).collect();
    let value = poly.evaluate(&r);
    let blind = Scalar::random();
    let mut t = Transcript::new(b"open");
    let (proof, czr) = PolyEvalProof::prove(
        &poly,
        Some(&blinds),
        &r,
        &value,
        Some(&blind),
        &gens,
        &mut t,
        &mut tape,
    );
    let mut u = Transcript::new(b"open");
    assert!(proof.verify(&gens, &mut u, &r, &czr, &comm).is_ok());
    let mut u = Transcript::new(b"other");
    assert!(proof.verify(&gens, &mut u, &r, &czr, &comm).is_err());
}

fn io(execution: &Vec<Scalar>, input: Vec<Scalar>, output: Vec<Scalar>, last: u64) -> bool {
    // four executed blocks of eight values, inputs and outputs of two values
    let gens = R1CSGens::new(b"io", 1, 32);
    let poly = DensePolynomial::new(execution.clone());
    let comm = poly.commit(&gens.gens_pc);
    let mut t = Transcript::new(b"io");
    let mut tape = RandomTape::new("proof");
    let proof = IOProofs::prove(
        &poly, 8, 4, s(5), s(last), &input, &output, 2, 4, &gens, &mut t, &mut tape,
    );
    let mut u = Transcript::new(b"io");
    proof.verify(&comm, 8, 4, s(5), s(last), &input, &output, 2, 4, &gens, &mut u).is_ok()
}

#[test]
fn a_refused_claim_ends_the_check() {
    let gens = R1CSGens::new(b"io", 1, 32);
    let mut e = vec![Scalar::zero(); 32];
    e[0] = s(1);
    e[1] = s(5);
    e[16] = s(1);
    e[16 + 5] = s(9);
    let poly = DensePolynomial::new(e);
    let comm = poly.commit(&gens.gens_pc);
    let none = vec![s(0), s(0)];
    let mut t = Transcript::new(b"io");
    let mut tape = RandomTape::new("proof");
    let proof = IOProofs::prove(
        &poly, 8, 4, s(5), s(9), &none, &none, 2, 4, &gens, &mut t, &mut tape,
    );
    // the third claim is wrong
    let mut u = Transcript::new(b"io");
    let answer = proof.verify(&comm, 8, 4, s(6), s(9), &none, &none, 2, 4, &gens, &mut u);
    assert!(answer.is_err());
    // the first three claims, one by one
    let mut w = Transcript::new(b"io");
    let mut check = |p: &PolyEvalProof, at: usize, value: Scalar| {
        p.verify_plain(&gens.gens_pc, &mut w, &to_bin_array(at, 5), &value, &comm).is_ok()
    };
    assert!(check(&proof.input_valid_proof, 0, s(1)));
    assert!(check(&proof.output_valid_proof, 16, s(1)));
    assert!(!check(&proof.input_block_num_proof, 1, s(6)));
    assert!(challenge_scalar(&mut u, "c").equals(&challenge_scalar(&mut w, "c")));
}

#[test]
fn inputs_and_outputs_are_tied_to_the_execution() {
    let mut e = vec![Scalar::zero(); 32];
    // valid, block number, two inputs, constant, block number, two outputs
    e[0] = s(1);
    e[1] = s(5);
    e[2] = s(11);
    e[3] = s(12);
    e[16] = s(1);
    e[16 + 5] = s(9);
    e[16 + 6] = s(21);
    e[16 + 7] = s(22);
    assert!(io(&e, vec![s(11), s(12)], vec![s(21), s(22)], 9));
    assert!(!io(&e, vec![s(11), s(13)], vec![s(21), s(22)], 9));
    assert!(!io(&e, vec![s(11), s(12)], vec![s(21), s(23)], 9));
    assert!(!io(&e, vec![s(11), s(12)], vec![s(21), s(22)], 8));
    e[16] = s(0);
    assert!(!io(&e, vec![s(11), s(12)], vec![s(21), s(22)], 9));
}

#[test]
fn blocks_and_execution_are_proved() {
    // z = [x0, x1, y0, y1] with x0 * x1 = y0
    let one = Scalar::one();
    let a = vec![vec![(0, 0, one)], vec![(0, 0, one)]];
    let b = vec![vec![(0, 1, one)], vec![(0, 1, one)]];
    let c = vec![vec![(0, 2, one)], vec![(0, 2, one)]];
    let inst = R1CSInstance::new(2, 2, 4, &a, &b, &c);
    let consis = R1CSInstance::new(1, 2, 4, &vec![a[0].clone()], &vec![b[0].clone()], &vec![
        c[0].clone(),
    ]);
    let gens = R1CSGens::new(b"r1cs", 2, 16);
    let vars = vec![vec![vec![s(2), s(3)], vec![s(4), s(5)]], vec![vec![s(6), s(7)]]];
    let inputs = vec![vec![vec![s(6), s(0)], vec![s(20), s(1)]], vec![vec![s(42), s(2)]]];
    let run = vec![vec![s(1), s(2)], vec![s(2), s(3)]];
    let mut t = Transcript::new(b"r1cs");
    let mut tape = RandomTape::new("proof");
    let (_proof, block, exec) = R1CSProof::prove(
        2,
        &vec![2, 1],
        &inst,
        &gens,
        2,
        &consis,
        &gens,
        vars,
        inputs,
        run,
        &mut t,
        &mut tape,
    );
    assert_eq!(block[0].len(), 1);
    assert_eq!(block[1].len(), 1);
    assert_eq!(block[2].len(), 1);
    assert_eq!(block[3].len(), 2);
    assert_eq!(exec[0].len(), 1);
    assert_eq!(exec[1].len(), 1);
    assert_eq!(exec[2].len(), 2);
    assert_eq!(R1CSProof::protocol_name(), b"R1CS proof");
}
