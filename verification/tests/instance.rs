use merlin::Transcript;
use spartan_parallel::commitments::MultiCommitGens;
use spartan_parallel::errors::R1CSError;
use spartan_parallel::r1csgens::R1CSSumcheckGens;
use spartan_parallel::scalar::Scalar;
use spartan_parallel::transcript::challenge_scalar;
use spartan_parallel::{Assignment, Instance, SNARKGens, SNARK};

fn num(x: u64) -> [u8; 32] {
    Scalar::from_u64(x).to_bytes()
}

// the order of the field, which is no canonical encoding
const ORDER: [u8; 32] = [
    0xed, 0xd3, 0xf5, 0x5c, 0x1a, 0x63, 0x12, 0x58, 0xd6, 0x9c, 0xf7, 0xa2, 0xde, 0xf9, 0xde, 0x14,
    0, 0, 0, 0, 0, 0, 0, 0, 0, 0, 0, 0, 0, 0, 0, 0x10,
];

#[test]
fn assignment_reads_canonical_scalars() {
    let a = Assignment::new(&[num(7), num(0), num(9)]).unwrap();
    assert_eq!(a.values().len(), 3);
    assert!(a.values()[0].equals(&Scalar::from_u64(7)));
    assert!(a.values()[2].equals(&Scalar::from_u64(9)));
    let mut top = ORDER;
    top[0] -= 1;
    let b = Assignment::new(&[top]).unwrap();
    assert!(b.values()[0].plus(&Scalar::one()).equals(&Scalar::zero()));
}

#[test]
fn assignment_refuses_other_bytes() {
    assert_eq!(Assignment::new(&[num(1), ORDER]).err(), Some(R1CSError::InvalidScalar));
    assert_eq!(Assignment::new(&[[255; 32]]).err(), Some(R1CSError::InvalidScalar));
    assert!(Assignment::new(&[]).is_ok());
}

#[test]
fn padding_keeps_the_front_and_fills_with_zeros() {
    let a = Assignment::new(&[num(7), num(8)]).unwrap();
    let p = a.pad(5);
    assert_eq!(p.values().len(), 5);
    assert!(p.values()[0].equals(&Scalar::from_u64(7)));
    assert!(p.values()[1].equals(&Scalar::from_u64(8)));
    for i in 2..5 {
        assert!(p.values()[i].equals(&Scalar::zero()));
    }
}

#[test]
fn check_r1cs_invalid_index() {
    let a = vec![vec![(0, 0, num(0))]];
    let b = vec![vec![(100, 1, num(0))]];
    let c = vec![vec![(1, 1, num(0))]];
    let inst = Instance::new(1, 4, 8, &a, &b, &c);
    assert_eq!(inst.err(), Some(R1CSError::InvalidIndex));
    let b = vec![vec![(0, 8, num(0))]];
    let inst = Instance::new(1, 4, 8, &a, &b, &c);
    assert_eq!(inst.err(), Some(R1CSError::InvalidIndex));
}

#[test]
fn check_r1cs_invalid_scalar() {
    let larger_than_mod = [
        3, 0, 0, 0, 255, 255, 255, 255, 254, 91, 254, 255, 2, 164, 189, 83, 5, 216, 161, 9, 8, 216,
        57, 51, 72, 125, 157, 41, 83, 167, 237, 115,
    ];
    let a = vec![vec![(0, 0, num(0))]];
    let b = vec![vec![(1, 1, larger_than_mod)]];
    let c = vec![vec![(1, 1, num(0))]];
    let inst = Instance::new(1, 4, 8, &a, &b, &c);
    assert_eq!(inst.err(), Some(R1CSError::InvalidScalar));
}

#[test]
fn the_first_error_is_reported() {
    // the index of an entry counts before its value, and earlier entries
    // before later ones
    let bad_both = vec![vec![(9, 0, ORDER)]];
    let bad_value = vec![vec![(0, 0, ORDER)]];
    let good = vec![vec![(0, 0, num(1))]];
    assert_eq!(
        Instance::new(1, 4, 8, &bad_both, &bad_value, &good).err(),
        Some(R1CSError::InvalidIndex)
    );
    assert_eq!(
        Instance::new(1, 4, 8, &bad_value, &bad_both, &good).err(),
        Some(R1CSError::InvalidScalar)
    );
    assert!(Instance::new(1, 4, 8, &good, &good, &good).is_ok());
}

#[test]
fn nothing_is_read_behind_an_error() {
    let bad = vec![vec![(9, 0, num(1))]];
    let good = vec![vec![(0, 0, num(1))]];
    let none = vec![];
    // an error in the first matrix, in the second, and in one of two instances
    let refused = Some(R1CSError::InvalidIndex);
    assert_eq!(Instance::new(1, 4, 8, &bad, &none, &none).err(), refused);
    let refused = Some(R1CSError::InvalidIndex);
    assert_eq!(Instance::new(1, 4, 8, &good, &bad, &none).err(), refused);
    let refused = Some(R1CSError::InvalidIndex);
    assert_eq!(Instance::new(2, 4, 8, &good, &good, &bad).err(), refused);
}

#[test]
fn sizes_are_rounded_up() {
    let m = vec![vec![], vec![], vec![]];
    let sizes = |n, cons, vars| {
        let i = Instance::new(n, cons, vars, &m, &m, &m).unwrap();
        let i = i.get();
        (i.get_num_instances(), i.get_num_cons(), i.get_num_vars())
    };
    assert_eq!(sizes(3, 5, 6), (4, 8, 8));
    assert_eq!(sizes(1, 4, 4), (1, 4, 4));
    assert_eq!(sizes(2, 1, 3), (2, 2, 4));
    assert_eq!(sizes(1, 0, 3), (1, 2, 4));
    assert_eq!(sizes(1, 2, 1), (1, 2, 1));
}

#[test]
fn encoding_tells_instances_apart() {
    let gens = SNARKGens::new(4, 8, 1, 4);
    let a = vec![vec![(0, 1, num(5)), (2, 3, num(1))]];
    let b = vec![vec![(0, 1, num(6)), (2, 3, num(1))]];
    let x = Instance::new(1, 4, 8, &a, &a, &a).unwrap();
    let y = Instance::new(1, 4, 8, &a, &b, &a).unwrap();
    let say = |i: &Instance| {
        let (c, _) = SNARK::encode(i, &gens);
        let mut t = Transcript::new(b"encoding");
        c.get().append_to_transcript("comm", &mut t);
        challenge_scalar(&mut t, "c").to_bytes()
    };
    assert_eq!(say(&x), say(&x));
    assert_ne!(say(&x), say(&y));
    assert_eq!(SNARK::protocol_name(), b"Spartan SNARK proof");
}

#[test]
fn parameters_depend_on_rounded_sizes() {
    let bytes = |g: &MultiCommitGens| g.g.iter().map(|p| p.to_bytes()).collect::<Vec<_>>();
    let sat = |g: &SNARKGens| bytes(&g.gens_r1cs_sat.gens_pc.gens.gens_n);
    let mem = |g: &SNARKGens| bytes(&g.gens_r1cs_eval.gens_mem.gens.gens_n);
    let a = SNARKGens::new(4, 5, 3, 4);
    let b = SNARKGens::new(4, 8, 4, 4);
    assert_eq!(sat(&a), sat(&b));
    assert_eq!(mem(&a), mem(&b));
    let c = SNARKGens::new(64, 7, 16, 4);
    assert_eq!(sat(&a), sat(&c));
    assert_ne!(mem(&a), mem(&c));
    assert_ne!(sat(&a), sat(&SNARKGens::new(4, 64, 3, 4)));
}

#[test]
fn sumcheck_generators_keep_what_they_are_given() {
    let given = MultiCommitGens::new(2, b"given");
    let g = R1CSSumcheckGens::new(b"label", &given);
    assert_eq!(g.gens_1.n, 2);
    assert!(g.gens_1.g[1].equals(&given.g[1]) && g.gens_1.h.equals(&given.h));
    let three = MultiCommitGens::new(3, b"label");
    assert!(g.gens_3.n == 3 && g.gens_3.g[2].equals(&three.g[2]));
    let four = MultiCommitGens::new(4, b"label");
    assert!(g.gens_4.n == 4 && g.gens_4.h.equals(&four.h));
}
