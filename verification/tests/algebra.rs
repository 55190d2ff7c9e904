use merlin::Transcript;
use spartan_parallel::commitments::MultiCommitGens;
use spartan_parallel::dense_mlpoly::{DensePolynomial, EqPolynomial};
use spartan_parallel::group::{multiscalar_mul, try_multiscalar_mul, CompressedGroup};
use spartan_parallel::math::{log_2, next_power_of_two, pow_2, to_bin_array};
use spartan_parallel::random::RandomTape;
use spartan_parallel::scalar::Scalar;
use spartan_parallel::tables::reverse_digits;
use spartan_parallel::transcript::{append_scalar, challenge_scalar, challenge_vector};
use spartan_parallel::unipoly::UniPoly;
use spartan_parallel::vectors::{dot_of, flatten, product_of, sum_of};

fn s(x: u64) -> Scalar {
    Scalar::from_u64(x)
}

fn v(x: &[u64]) -> Vec<Scalar> {
    x.iter().map(|y| s(*y)).collect()
}

#[test]
fn scalar_arithmetic() {
    assert!(s(2).plus(&s(3)).equals(&s(5)));
    assert!(s(7).minus(&s(3)).equals(&s(4)));
    assert!(s(3).minus(&s(7)).plus(&s(4)).equals(&Scalar::zero()));
    assert!(s(6).times(&s(7)).equals(&s(42)));
    assert!(s(5).invert().unwrap().times(&s(5)).equals(&Scalar::one()));
    assert!(Scalar::zero().invert().is_none());
    assert!(!s(1).equals(&s(2)));
    assert!(!Scalar::random().equals(&Scalar::random()));
    let mut wide = [0u8; 64];
    wide[0] = 9;
    assert!(Scalar::from_bytes_wide(&wide).equals(&s(9)));
    // 2^256 modulo the order
    wide[0] = 0;
    wide[32] = 1;
    let two_128 = s(1 << 32).times(&s(1 << 32)).times(&s(1 << 32)).times(&s(1 << 32));
    assert!(Scalar::from_bytes_wide(&wide).equals(&two_128.times(&two_128)));
}

#[test]
fn encodings_read_back() {
    let x = Scalar::random();
    assert!(Scalar::from_bytes(&x.to_bytes()).unwrap().equals(&x));
    assert!(Scalar::from_bytes(&[255; 32]).is_none());
}

#[test]
fn logarithms_and_powers() {
    assert_eq!(log_2(1), 0);
    assert_eq!(log_2(2), 1);
    assert_eq!(log_2(5), 3);
    assert_eq!(log_2(8), 3);
    assert_eq!(pow_2(5), 32);
    assert_eq!(next_power_of_two(0), 1);
    assert_eq!(next_power_of_two(1), 1);
    assert_eq!(next_power_of_two(5), 8);
    assert_eq!(next_power_of_two(8), 8);
    let b = to_bin_array(6, 4);
    let want = v(&[0, 1, 1, 0]);
    assert!(b.len() == 4 && (0..4).all(|i| b[i].equals(&want[i])));
    assert_eq!(reverse_digits(1, 3), 4);
    assert_eq!(reverse_digits(6, 3), 3);
}

#[test]
fn lists() {
    assert!(sum_of(&v(&[1, 2, 3])).equals(&s(6)));
    assert!(product_of(&v(&[2, 3, 7])).equals(&s(42)));
    assert!(product_of(&vec![]).equals(&s(1)));
    assert!(dot_of(&v(&[1, 2]), &v(&[5, 6])).equals(&s(17)));
    let f = flatten(&vec![v(&[1, 2]), v(&[3])]);
    assert!(f.len() == 3 && f[2].equals(&s(3)));
}

#[test]
fn polynomial_values() {
    // values at 00, 01, 10, 11
    let p = DensePolynomial::new(v(&[1, 2, 3, 5]));
    for i in 0..4 {
        assert!(p.evaluate(&to_bin_array(i, 2)).equals(&p.index(i)));
    }
    // (1-x)(1-y) + 2(1-x)y + 3x(1-y) + 5xy at x = 2, y = 3 is 2 - 6 - 12 + 30
    assert!(p.evaluate(&v(&[2, 3])).equals(&s(14)));
    let mut q = DensePolynomial::new(v(&[1, 2, 3, 5]));
    q.bound_poly_var_top(&s(2));
    assert!(q.len() == 2 && q.index(0).equals(&s(5)) && q.index(1).equals(&s(8)));
    q.bound_poly_var_top(&s(3));
    assert!(q.len() == 1 && q.index(0).equals(&s(14)));
    let e = EqPolynomial::new(v(&[1, 0])).evals();
    assert!(e[2].equals(&s(1)) && e[0].equals(&s(0)) && e[1].equals(&s(0)) && e[3].equals(&s(0)));
}

#[test]
fn interpolation() {
    // x^2 + 2x + 3
    let p = UniPoly::from_evals(&v(&[3, 6, 11]));
    assert!(p.evaluate(&s(10)).equals(&s(123)));
    // 2x^3 + x + 1
    let p = UniPoly::from_evals(&v(&[1, 4, 19, 58]));
    assert_eq!(p.degree(), 3);
    assert!(p.evaluate(&s(10)).equals(&s(2011)));
}

#[test]
fn commitments_are_linear() {
    let gens = MultiCommitGens::new(3, b"gens");
    let (x, y) = (v(&[1, 2, 3]), v(&[10, 20, 30]));
    let a = gens.commit(&x, &s(5));
    let b = gens.commit(&y, &s(7));
    let sum = gens.commit(&v(&[11, 22, 33]), &s(12));
    let both = multiscalar_mul(&v(&[1, 1]), &vec![a, b]);
    assert!(sum.equals(&both));
    assert!(!a.equals(&b));
    assert!(gens.commit_one(&s(1), &s(0)).equals(&gens.g[0]));
    assert!(gens.commit_one(&s(0), &s(1)).equals(&gens.h));
    let again = MultiCommitGens::new(2, b"gens");
    assert!(again.g[0].equals(&gens.g[0]) && again.h.equals(&gens.g[2]));
    assert!(!MultiCommitGens::new(3, b"other").g[0].equals(&gens.g[0]));
}

#[test]
fn points_that_do_not_decode_are_refused() {
    let bad = CompressedGroup::from_bytes(&[255; 32]);
    let gens = MultiCommitGens::new(1, b"gens");
    assert!(try_multiscalar_mul(&v(&[1, 1]), &vec![gens.h, bad]).is_none());
    assert!(try_multiscalar_mul(&v(&[1]), &vec![gens.h]).unwrap().equals(&gens.h));
    assert!(try_multiscalar_mul(&vec![], &vec![]).is_some());
    assert_eq!(bad.to_bytes(), [255; 32]);
}

#[test]
fn transcripts_bind_what_was_said() {
    let draw = |x: u64| {
        let mut t = Transcript::new(b"test");
        append_scalar(&mut t, "x", &s(x));
        challenge_scalar(&mut t, "c")
    };
    assert!(draw(1).equals(&draw(1)));
    assert!(!draw(1).equals(&draw(2)));
    let mut t = Transcript::new(b"test");
    let c = challenge_vector(&mut t, "c", 3);
    assert!(c.len() == 3 && !c[0].equals(&c[1]));
}

#[test]
fn tapes_are_seeded_afresh() {
    let mut a = RandomTape::new("proof");
    let mut b = RandomTape::new("proof");
    assert!(!a.random_scalar("x").equals(&b.random_scalar("x")));
    assert_eq!(a.random_vector("y", 4).len(), 4);
}
