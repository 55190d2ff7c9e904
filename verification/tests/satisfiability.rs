use merlin::Transcript;
use spartan_parallel::commitments::MultiCommitGens;
use spartan_parallel::dense_mlpoly::{DensePolynomial, EqPolynomial, PolyCommitment};
use spartan_parallel::group::{multiscalar_mul, CompressedGroup};
use spartan_parallel::r1csgens::R1CSGens;
use spartan_parallel::r1csinstance::R1CSInstance;
use spartan_parallel::r1csproof::{Claims, R1CSProof};
use spartan_parallel::random::RandomTape;
use spartan_parallel::scalar::Scalar;
use spartan_parallel::sigma::EqualityProof;
use spartan_parallel::sumcheck::ZKSumcheckInstanceProof;
use spartan_parallel::transcript::{
    append_point, append_protocol_name, append_scalars, challenge_scalar, challenge_vector,
};
use spartan_parallel::vectors::{dot_of, flatten};

type Point = CompressedGroup;

fn s(x: u64) -> Scalar {
    Scalar::from_u64(x)
}

fn sum(terms: &[(Scalar, Point)]) -> Point {
    let scalars = terms.iter().map(|t| t.0).collect();
    let points = terms.iter().map(|t| t.1).collect();
    multiscalar_mul(&scalars, &points)
}

fn less(x: &Scalar) -> Scalar {
    Scalar::one().minus(x)
}

// The weight of one point at another.
fn weight(a: &[Scalar], b: &[Scalar]) -> Scalar {
    assert_eq!(a.len(), b.len());
    let mut w = Scalar::one();
    for i in 0..a.len() {
        w = w.times(&a[i].times(&b[i]).plus(&less(&a[i]).times(&less(&b[i]))));
    }
    w
}

// Checks the messages of a sum-check, and gives the commitment to its last
// claim and its challenges.
fn follow(
    t: &mut Transcript,
    p: &ZKSumcheckInstanceProof,
    claim: Point,
    gens_1: &MultiCommitGens,
    gens_n: &MultiCommitGens,
) -> (Point, Vec<Scalar>) {
    let mut claim = claim;
    let mut rs = Vec::new();
    for i in 0..p.comm_polys.len() {
        let (poly, eval, d) = (p.comm_polys[i], p.comm_evals[i], &p.proofs[i]);
        append_point(t, "comm_poly", &poly);
        let r = challenge_scalar(t, "challenge_nextround");
        append_point(t, "comm_claim_per_round", &claim);
        append_point(t, "comm_eval", &eval);
        let w = challenge_vector(t, "combine_two_claims_to_one", 2);
        let mut power = Scalar::one();
        let mut a = Vec::new();
        for k in 0..d.z.len() {
            let ends = if k == 0 { s(2) } else { s(1) };
            a.push(w[0].times(&ends).plus(&w[1].times(&power)));
            power = power.times(&r);
        }
        let target = sum(&[(w[0], claim), (w[1], eval)]);
        append_protocol_name(t, "dot product proof");
        append_point(t, "Cx", &poly);
        append_point(t, "Cy", &target);
        append_scalars(t, "a", &a);
        append_point(t, "delta", &d.delta);
        append_point(t, "beta", &d.beta);
        let c = challenge_scalar(t, "c");
        let left = sum(&[(c, poly), (s(1), d.delta)]);
        assert!(left.equals(&gens_n.commit(&d.z, &d.z_delta)));
        let left = sum(&[(c, target), (s(1), d.beta)]);
        assert!(left.equals(&gens_1.commit_one(&dot_of(&d.z, &a), &d.z_beta)));
        claim = eval;
        rs.push(r);
    }
    (claim, rs)
}

fn equal(t: &mut Transcript, p: &EqualityProof, c1: Point, c2: Point, h: Point) {
    append_protocol_name(t, "equality proof");
    append_point(t, "C1", &c1);
    append_point(t, "C2", &c2);
    append_point(t, "alpha", &p.alpha);
    let c = challenge_scalar(t, "c");
    let back = Scalar::zero().minus(&c);
    assert!(sum(&[(p.z, h)]).equals(&sum(&[(c, c1), (back, c2), (s(1), p.alpha)])));
}

// Checks the step between two sum-checks, and gives the commitment to the joint
// claim and its weights.
fn middle(
    t: &mut Transcript,
    p: &Claims,
    tau: Scalar,
    post: Point,
    g: &MultiCommitGens,
) -> (Point, [Scalar; 3]) {
    append_protocol_name(t, "knowledge proof");
    append_point(t, "C", &p.comm_cz);
    append_point(t, "alpha", &p.pok.alpha);
    let c = challenge_scalar(t, "c");
    let right = sum(&[(c, p.comm_cz), (s(1), p.pok.alpha)]);
    assert!(g.commit_one(&p.pok.z1, &p.pok.z2).equals(&right));
    let q = &p.prod;
    append_protocol_name(t, "product proof");
    append_point(t, "X", &p.comm_az);
    append_point(t, "Y", &p.comm_bz);
    append_point(t, "Z", &p.comm_prod);
    append_point(t, "alpha", &q.alpha);
    append_point(t, "beta", &q.beta);
    append_point(t, "delta", &q.delta);
    let c = challenge_scalar(t, "c");
    let right = sum(&[(c, p.comm_az), (s(1), q.alpha)]);
    assert!(g.commit_one(&q.z1, &q.z2).equals(&right));
    let right = sum(&[(c, p.comm_bz), (s(1), q.beta)]);
    assert!(g.commit_one(&q.z3, &q.z4).equals(&right));
    let right = sum(&[(c, p.comm_prod), (s(1), q.delta)]);
    assert!(sum(&[(q.z3, p.comm_az), (q.z5, g.h)]).equals(&right));
    append_point(t, "comm_Az_claim", &p.comm_az);
    append_point(t, "comm_Bz_claim", &p.comm_bz);
    append_point(t, "comm_Cz_claim", &p.comm_cz);
    append_point(t, "comm_prod_Az_Bz_claims", &p.comm_prod);
    let back = Scalar::zero().minus(&tau);
    let missed = sum(&[(tau, p.comm_prod), (back, p.comm_cz)]);
    equal(t, &p.eq, missed, post, g.h);
    let ra = challenge_scalar(t, "challenge_Az");
    let rb = challenge_scalar(t, "challenge_Bz");
    let rc = challenge_scalar(t, "challenge_Cz");
    let joint = sum(&[(ra, p.comm_az), (rb, p.comm_bz), (rc, p.comm_cz)]);
    (joint, [ra, rb, rc])
}

fn mix(a: &PolyCommitment, b: &PolyCommitment, r: &Scalar) -> PolyCommitment {
    let c = (0..a.c.len()).map(|k| sum(&[(less(r), a.c[k]), (*r, b.c[k])])).collect();
    PolyCommitment { c }
}

fn combine(w: &[Scalar; 3], e: (Scalar, Scalar, Scalar)) -> Scalar {
    w[0].times(&e.0).plus(&w[1].times(&e.1)).plus(&w[2].times(&e.2))
}

fn same(a: &[Scalar], b: &[Scalar]) -> bool {
    a.len() == b.len() && (0..a.len()).all(|i| a[i].equals(&b[i]))
}

fn vectors(rows: &[&[u64]]) -> Vec<Vec<Scalar>> {
    rows.iter().map(|r| r.iter().map(|x| s(*x)).collect()).collect()
}

#[test]
fn every_claim_of_a_proof_of_satisfiability_holds() {
    // z = [x0, x1, y0, y1] with x0 * x1 = y0
    let one = Scalar::one();
    let a = vec![vec![(0, 0, one)], vec![(0, 0, one)]];
    let b = vec![vec![(0, 1, one)], vec![(0, 1, one)]];
    let c = vec![vec![(0, 2, one)], vec![(0, 2, one)]];
    let inst = R1CSInstance::new(2, 2, 4, &a, &b, &c);
    let first = |m: &Vec<Vec<(usize, usize, Scalar)>>| vec![m[0].clone()];
    let consis = R1CSInstance::new(1, 2, 4, &first(&a), &first(&b), &first(&c));
    let gens = R1CSGens::new(b"r1cs", 2, 16);
    let sc = &gens.gens_sc;
    let vars = vec![vectors(&[&[2, 3], &[4, 5]]), vectors(&[&[6, 7]])];
    let inputs = vec![vectors(&[&[6, 0], &[20, 1]]), vectors(&[&[42, 2]])];
    // each row times its second value is the next, and the first follows the last
    let run = vec![vec![s(5), s(2)], vec![s(10), s(2).invert().unwrap()]];
    let mut t = Transcript::new(b"r1cs");
    let mut tape = RandomTape::new("proof");
    // numbers of copies and inputs may go on behind the last block
    let mut longer = inputs.clone();
    longer.push(vectors(&[&[9, 9, 9]]));
    let (proof, block, exec) = R1CSProof::prove(
        2,
        &vec![2, 1, 77],
        &inst,
        &gens,
        2,
        &consis,
        &gens,
        vars.clone(),
        longer,
        run.clone(),
        &mut t,
        &mut tape,
    );
    let mut u = Transcript::new(b"r1cs");
    append_protocol_name(&mut u, "R1CS proof");
    assert_eq!(proof.block_comm_vars_list.len(), 2);
    assert_eq!(proof.block_comm_io_list.len(), 2);
    for p in 0..2 {
        proof.block_comm_vars_list[p].append_to_transcript("poly_commitment", &mut u);
        proof.block_comm_io_list[p].append_to_transcript("poly_commitment", &mut u);
    }
    proof.exec_comm_io.append_to_transcript("poly_commitment", &mut u);

    // the blocks: one coordinate each for instances, copies and rows, two for columns
    let b = &proof.block_proof;
    let tp = challenge_vector(&mut u, "challenge_tau_p", 1);
    let tq = challenge_vector(&mut u, "challenge_tau_q", 1);
    let tx = challenge_vector(&mut u, "challenge_tau_x", 1);
    let zero = sc.gens_1.commit_one(&s(0), &s(0));
    let (post, r1) = follow(&mut u, &b.sc_proof_phase1, zero, &sc.gens_1, &sc.gens_4);
    assert_eq!(r1.len(), 3);
    let (rx, rq_rev, rp1) = (&r1[..1], &r1[1..2], &r1[2..]);
    assert!(same(&block[1], rq_rev) && same(&block[2], rx));
    let tau = weight(&tp, rp1).times(&weight(&tq, rq_rev)).times(&weight(&tx, rx));
    let (joint, w) = middle(&mut u, &b.claims_phase2, tau, post, &sc.gens_1);
    let (post, r2) = follow(&mut u, &b.sc_proof_phase2, joint, &sc.gens_1, &sc.gens_4);
    assert_eq!(r2.len(), 3);
    let (rp, ry) = (r2[..1].to_vec(), r2[1..].to_vec());
    assert!(same(&block[0], &rp) && same(&block[3], &ry));
    let eq_p = EqPolynomial::new(rp.clone()).evals();
    let mut terms = Vec::new();
    for p in 0..2 {
        // two copies of the first block, one of the second
        let (point, damp) = if p == 0 {
            (vec![rq_rev[0], ry[1]], s(1))
        } else {
            (vec![ry[1]], less(&rq_rev[0]))
        };
        let mixed = mix(&proof.block_comm_vars_list[p], &proof.block_comm_io_list[p], &ry[0]);
        let value = b.comm_vars_at_ry_list[p];
        let opening = &b.proof_eval_vars_at_ry_list[p];
        assert!(opening.verify(&gens.gens_pc, &mut u, &point, &value, &mixed).is_ok());
        terms.push((eq_p[p].times(&damp), value));
    }
    assert!(sum(&terms).equals(&b.comm_vars_at_ry));
    let values = inst.evaluate(&rp, &rx.to_vec(), &ry);
    let factor = combine(&w, values).times(&weight(rp1, &rp));
    let expected = sum(&[(factor, b.comm_vars_at_ry)]);
    let h = gens.gens_pc.gens.gens_1.h;
    equal(&mut u, &b.proof_eq_sc_phase2, expected, post, h);

    // the execution: one coordinate each for executed blocks and rows
    let e = &proof.consis_proof;
    let tau = challenge_vector(&mut u, "challenge_tau", 2);
    let (post, r1) = follow(&mut u, &e.sc_proof_phase1, zero, &sc.gens_1, &sc.gens_4);
    let (rq, rx) = (&r1[..1], r1[1..].to_vec());
    assert!(same(&exec[0], rq) && same(&exec[1], &rx));
    let tau = weight(&tau, &r1);
    let (joint, w) = middle(&mut u, &e.claims_phase2, tau, post, &sc.gens_1);
    let (post, ry) = follow(&mut u, &e.sc_proof_phase2, joint, &sc.gens_1, &sc.gens_3);
    assert!(same(&exec[2], &ry) && ry.len() == 2);
    let now = flatten(&run);
    let next = flatten(&vec![run[1].clone(), run[0].clone()]);
    let mixed: Vec<Scalar> =
        (0..4).map(|i| less(&ry[0]).times(&now[i]).plus(&ry[0].times(&next[i]))).collect();
    let comm = DensePolynomial::new(mixed).commit(&gens.gens_pc);
    let point = vec![rq[0], ry[1]];
    let opening = &e.proof_eval_vars_at_ry;
    assert!(opening.verify(&gens.gens_pc, &mut u, &point, &e.comm_vars_at_ry, &comm).is_ok());
    let values = consis.evaluate(&vec![], &rx, &ry);
    let expected = sum(&[(combine(&w, values), e.comm_vars_at_ry)]);
    equal(&mut u, &e.proof_eq_sc_phase2, expected, post, h);

    // prover and verifier end alike
    assert!(challenge_scalar(&mut t, "end").equals(&challenge_scalar(&mut u, "end")));
}
