use merlin::Transcript;
use spartan_parallel::commitments::MultiCommitGens;
use spartan_parallel::dense_mlpoly::{DensePolynomial, EqPolynomial, PolyCommitmentGens};
use spartan_parallel::group::base_point;
use spartan_parallel::math::to_bin_array;
use spartan_parallel::poly_eval::PolyEvalProof;
use spartan_parallel::r1csinstance::R1CSInstance;
use spartan_parallel::random::RandomTape;
use spartan_parallel::scalar::Scalar;
use spartan_parallel::sparse::{compute_eval_table, evaluate_with_tables, multiply_vec};
use spartan_parallel::sumcheck::{Comb, ZKSumcheckInstanceProof};
use spartan_parallel::tables::{
    bind_copies, column_table_of, factor_table_of, reverse_digits, stretch, table_of,
};
use spartan_parallel::unipoly::UniPoly;
use spartan_parallel::vectors::{dot_of, flatten, product_of};
use spartan_parallel::witness::{
    consistency_witness, memory_witness, permutation_witness, powers_of, weigh_rows,
};

fn s(x: u64) -> Scalar {
    Scalar::from_u64(x)
}

fn v(x: &[u64]) -> Vec<Scalar> {
    x.iter().map(|y| s(*y)).collect()
}

fn value(z: &Vec<Scalar>, r: &Vec<Scalar>) -> Scalar {
    DensePolynomial::new(z.clone()).evaluate(r)
}

fn randoms(n: usize) -> Vec<Scalar> {
    (0..n).map(|_| Scalar::random()).collect()
}

#[test]
fn binding_keeps_the_value() {
    let z = v(&[1, 2, 3, 5, 8, 13, 21, 34]);
    let r = randoms(3);
    let mut p = DensePolynomial::new(z.clone());
    p.bound_poly_var_top(&r[0]);
    assert!(value(p.values(), &r[1..].to_vec()).equals(&value(&z, &r)));
}

#[test]
fn positions_beyond_the_last_start_again() {
    let z = v(&[7, 9, 11, 13]);
    for j in 0..4 {
        assert!(value(&z, &to_bin_array(4 + j, 2)).equals(&z[j]));
    }
}

#[test]
fn reversed_positions_take_reversed_points() {
    let z = v(&[1, 2, 3, 5, 8, 13, 21, 34]);
    let r = randoms(3);
    let turned: Vec<Scalar> = (0..8).map(|q| z[reverse_digits(q, 3)]).collect();
    let back: Vec<Scalar> = r.iter().rev().copied().collect();
    assert!(value(&turned, &r).equals(&value(&z, &back)));
}

#[test]
fn rows_combine_to_the_whole() {
    let rows = vec![v(&[1, 2]), v(&[3, 4]), v(&[5, 6]), v(&[7, 9])];
    let (l, r) = (randoms(2), randoms(1));
    let vals: Vec<Scalar> = rows.iter().map(|x| value(x, &r)).collect();
    let point: Vec<Scalar> = l.iter().chain(r.iter()).copied().collect();
    assert!(value(&flatten(&rows), &point).equals(&value(&vals, &l)));
}

#[test]
fn matrices_may_be_read_by_rows_or_by_columns() {
    let m = vec![(0, 1, s(3)), (1, 0, s(2)), (1, 3, s(5)), (0, 1, s(4))];
    let (w, z) = (v(&[2, 7]), v(&[1, 10, 100, 1000]));
    // 2 * (7 * 10) + 7 * (2 * 1 + 5 * 1000)
    let want = s(35154);
    assert!(dot_of(&w, &multiply_vec(&m, 2, &z)).equals(&want));
    assert!(dot_of(&z, &compute_eval_table(&m, &w, 4)).equals(&want));
    assert!(evaluate_with_tables(&m, &w, &z).equals(&want));
}

#[test]
fn cubes_are_summed_by_instances_copies_and_rows() {
    // two instances, of two copies and of one, with two rows
    let cube = vec![vec![v(&[1, 2]), v(&[3, 4])], vec![v(&[5, 6])]];
    let t = table_of(&cube, 1, 2);
    let want = v(&[1, 5, 3, 0, 2, 6, 4, 0]);
    assert!(t.len() == 8 && (0..8).all(|i| t[i].equals(&want[i])));
    let (rx, rq, rp) = (randoms(1), randoms(1), randoms(1));
    let point = vec![rx[0], rq[0], rp[0]];
    let (ex, eq, ep) = (
        EqPolynomial::new(rx).evals(),
        EqPolynomial::new(rq).evals(),
        EqPolynomial::new(rp).evals(),
    );
    let first = eq[0].times(&dot_of(&ex, &cube[0][0])).plus(&eq[1].times(&dot_of(&ex, &cube[0][1])));
    let second = eq[0].times(&dot_of(&ex, &cube[1][0]));
    let sum = ep[0].times(&first).plus(&ep[1].times(&second));
    assert!(value(&t, &point).equals(&sum));
}

#[test]
fn tables_of_weights_and_matrices_have_short_values() {
    let (rp, rq, rx, ry) = (randoms(1), randoms(1), randoms(1), randoms(2));
    let (tp, tq, tx) = (v(&[2, 3]), v(&[5, 7]), v(&[11, 13]));
    let t = factor_table_of(&tp, &tq, &tx);
    let product = value(&tp, &rp).times(&value(&tq, &rq)).times(&value(&tx, &rx));
    assert!(value(&t, &vec![rx[0], rq[0], rp[0]]).equals(&product));
    // each entry repeated for all columns
    let point = vec![rp[0], ry[0], ry[1]];
    assert!(value(&stretch(&tp, 4), &point).equals(&value(&tp, &rp)));
    // the columns of two matrices of two rows and four columns
    let m = vec![vec![(0, 1, s(3)), (1, 0, s(2))], vec![(1, 3, s(5))]];
    let inst = R1CSInstance::new(2, 2, 4, &m, &m, &m);
    let ex = EqPolynomial::new(rx.clone()).evals();
    let columns = column_table_of(&m, &ex, 4);
    assert!(value(&columns, &point).equals(&inst.evaluate(&rp, &rx, &ry).0));
}

#[test]
fn copies_are_combined() {
    let z = vec![v(&[1, 2, 3]), v(&[10, 20, 30])];
    let b = bind_copies(&z, &v(&[2, 5, 7, 9]), 3);
    let want = v(&[52, 104, 156]);
    assert!(b.len() == 3 && (0..3).all(|i| b[i].equals(&want[i])));
}

#[test]
fn interpolation_passes_through_its_points() {
    let e = randoms(4);
    let p = UniPoly::from_evals(&e);
    for i in 0..4 {
        assert!(p.evaluate(&s(i)).equals(&e[i as usize]));
    }
    let p = UniPoly::from_evals(&e[..3].to_vec());
    for i in 0..3 {
        assert!(p.evaluate(&s(i)).equals(&e[i as usize]));
    }
}

fn sumcheck(tables: Vec<Vec<Scalar>>, comb: Comb, total: Scalar) {
    let gens_1 = MultiCommitGens::new(1, b"one");
    let gens_n = MultiCommitGens::new(4, b"many");
    let mut t = Transcript::new(b"sums");
    let mut tape = RandomTape::new("proof");
    let n = tables[0].len().trailing_zeros() as usize;
    let (_, r, left, _) = ZKSumcheckInstanceProof::prove(
        &total,
        &s(3),
        n,
        tables.clone(),
        &comb,
        &gens_1,
        &gens_n,
        &mut t,
        &mut tape,
    );
    assert_eq!(r.len(), n);
    assert_eq!(left.len(), tables.len());
    for m in 0..tables.len() {
        assert!(left[m].equals(&value(&tables[m], &r)));
    }
}

#[test]
fn sum_checks_leave_the_values_at_the_challenges() {
    let (a, b) = (v(&[1, 2, 3, 4]), v(&[5, 6, 7, 8]));
    sumcheck(vec![a.clone(), b.clone()], Comb::Quad, s(70));
    sumcheck(vec![a.clone(), b.clone(), a.clone()], Comb::Cubic, s(5 + 24 + 63 + 128));
    let products: Vec<Scalar> = (0..4).map(|i| a[i].times(&b[i])).collect();
    sumcheck(vec![randoms(4), a, b, products], Comb::Additive, s(0));
}

fn root(row: &Vec<Scalar>, tau: &Scalar, r: &Scalar) -> Scalar {
    row[0].times(&tau.minus(&dot_of(&powers_of(r, row.len()), row)))
}

fn total(m: &Vec<Vec<Scalar>>, tau: &Scalar, r: &Scalar) -> Scalar {
    let w = weigh_rows(m, &powers_of(r, 4), r);
    permutation_witness(m, &w, m.len(), tau, r, 4)[0][3]
}

#[test]
fn accumulators_multiply_the_valid_rows_in_any_order() {
    let (tau, r) = (Scalar::random(), Scalar::random());
    let (a, b, c, none) = (v(&[1, 2, 3, 4]), v(&[1, 5, 6, 7]), v(&[1, 8, 9, 0]), v(&[0, 1, 1, 1]));
    let want = product_of(&vec![root(&a, &tau, &r), root(&b, &tau, &r), root(&c, &tau, &r)]);
    let m = vec![a.clone(), b.clone(), c.clone(), none.clone()];
    assert!(total(&m, &tau, &r).equals(&want));
    let m = vec![c.clone(), a.clone(), b.clone(), none.clone()];
    assert!(total(&m, &tau, &r).equals(&want));
    // the same rows in two blocks
    let one = total(&vec![b, none.clone()], &tau, &r);
    let two = total(&vec![a, c], &tau, &r);
    assert!(one.times(&two).equals(&want));
}

#[test]
fn memory_rows_multiply_their_accesses() {
    let (tau, r) = (s(1000), s(10));
    let inputs = vec![v(&[1, 0, 0, 0, 0, 0, 0, 0]), v(&[0, 0, 0, 0, 0, 0, 0, 0])];
    let mems = vec![v(&[1, 0, 0, 0, 3, 4, 5, 6]), v(&[0, 0, 0, 0, 7, 7, 7, 7])];
    let w = memory_witness(&inputs, &mems, 2, &tau, &r, 2, 8);
    // (1000 - 3 - 40) * (1000 - 5 - 60)
    let want = s(957 * 935);
    assert!(w[0][3].equals(&want));
    assert!(w[0][4].equals(&s(40)) && w[0][5].equals(&s(957)));
    assert!(w[0][6].equals(&s(60)) && w[0][7].equals(&want));
    assert!(w[1][3].equals(&s(0)));
}

#[test]
fn outputs_meet_the_next_inputs() {
    let r = Scalar::random();
    // valid, two inputs, unused, two outputs behind the cutoff
    let m = vec![v(&[1, 4, 5, 0, 6, 7, 0, 0]), v(&[1, 6, 7, 0, 8, 9, 0, 0])];
    let (_, w) = consistency_witness(&m, &powers_of(&r, 8), 2, &r, 3, 8);
    assert!(w[0][2].equals(&w[1][1]));
    assert!(!w[0][1].equals(&w[0][2]));
    assert!(w[0][0].equals(&s(1)));
}

#[test]
fn generators_of_one_label_agree() {
    let small = PolyCommitmentGens::new(2, b"gens");
    let large = PolyCommitmentGens::new(5, b"gens");
    assert_eq!(small.gens.n, 2);
    assert_eq!(large.gens.n, 8);
    for i in 0..2 {
        assert!(small.gens.gens_n.g[i].equals(&large.gens.gens_n.g[i]));
    }
    // committed to with the large ones, opened with the small ones
    let poly = DensePolynomial::new(v(&[4, 3, 2, 1]));
    let r = randoms(2);
    let claim = poly.evaluate(&r);
    let comm = poly.commit(&large);
    let mut tape = RandomTape::new("proof");
    let mut t = Transcript::new(b"open");
    let (proof, _) =
        PolyEvalProof::prove(&poly, None, &r, &claim, None, &small, &mut t, &mut tape);
    let mut u = Transcript::new(b"open");
    assert!(proof.verify_plain(&small, &mut u, &r, &claim, &comm).is_ok());
}

#[test]
fn the_base_point_is_the_ristretto_one() {
    assert_eq!(base_point().to_bytes()[..4], [0xe2, 0xf2, 0xae, 0x0a]);
}
