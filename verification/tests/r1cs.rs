use spartan_parallel::r1csinstance::R1CSInstance;
use spartan_parallel::scalar::Scalar;

fn produce_tiny_r1cs() -> (R1CSInstance, Vec<Scalar>, Vec<Scalar>) {
    // three constraints over five variables Z1, Z2, Z3, Z4, and Z5
    // rounded to the nearest power of two
    let num_cons = 128;
    let num_vars = 256;
    let num_inputs = 2;

    let mut a: Vec<(usize, usize, Scalar)> = Vec::new();
    let mut b: Vec<(usize, usize, Scalar)> = Vec::new();
    let mut c: Vec<(usize, usize, Scalar)> = Vec::new();

    let one = Scalar::one();
    // (Z1 + Z2) * I0 - Z3 = 0
    a.push((0, 0, one));
    a.push((0, 1, one));
    b.push((0, num_vars + 1, one));
    c.push((0, 2, one));

    // (Z1 + I1) * Z3 - Z4 = 0
    a.push((1, 0, one));
    a.push((1, num_vars + 2, one));
    b.push((1, 2, one));
    c.push((1, 3, one));

    // Z5 * 1 - 0 = 0
    a.push((2, 4, one));
    b.push((2, num_vars, one));

    let inst = R1CSInstance::new(1, num_cons, 2 * num_vars, &vec![a], &vec![b], &vec![c]);

    // compute a satisfying assignment
    let i0 = Scalar::random();
    let i1 = Scalar::random();
    let z1 = Scalar::random();
    let z2 = Scalar::random();
    let z3 = z1.plus(&z2).times(&i0);
    let z4 = z1.plus(&i1).times(&z3);
    let z5 = Scalar::zero();

    let mut vars = vec![Scalar::zero(); num_vars];
    vars[0] = z1;
    vars[1] = z2;
    vars[2] = z3;
    vars[3] = z4;
    vars[4] = z5;

    let mut input = vec![Scalar::zero(); num_inputs];
    input[0] = i0;
    input[1] = i1;

    (inst, vars, input)
}

#[test]
fn test_tiny_r1cs() {
    let (inst, vars, input) = produce_tiny_r1cs();
    let is_sat = inst.is_sat(&vars, &input);
    assert!(is_sat);
}

#[test]
fn test_synthetic_r1cs() {
    let (inst, vars, input) = R1CSInstance::produce_synthetic_r1cs(1024, 1024, 10);
    let is_sat = inst.is_sat(&vars, &input);
    assert!(is_sat);
}

#[test]
fn wrong_variables_do_not_satisfy() {
    let (inst, mut vars, input) = produce_tiny_r1cs();
    vars[3] = vars[3].plus(&Scalar::one());
    assert!(!inst.is_sat(&vars, &input));
    let (inst, vars, mut input) = R1CSInstance::produce_synthetic_r1cs(16, 16, 3);
    assert!(inst.is_sat(&vars, &input));
    input[0] = input[0].plus(&Scalar::one());
    assert!(!inst.is_sat(&vars, &input));
}

#[test]
fn evaluation_at_vertices_gives_entries() {
    let two = Scalar::from_u64(2);
    let three = Scalar::from_u64(3);
    let a = vec![vec![(0, 1, two)], vec![(1, 3, three)]];
    let b = vec![vec![(0, 0, two)], vec![]];
    let c = vec![vec![], vec![(1, 2, two), (1, 2, three)]];
    let inst = R1CSInstance::new(2, 2, 4, &a, &b, &c);
    let (o, l) = (Scalar::zero(), Scalar::one());
    let (ar, br, cr) = inst.evaluate(&vec![o], &vec![o], &vec![o, l]);
    assert!(ar.equals(&two) && br.equals(&o) && cr.equals(&o));
    let (ar, br, cr) = inst.evaluate(&vec![l], &vec![l], &vec![l, l]);
    assert!(ar.equals(&three) && br.equals(&o) && cr.equals(&o));
    let (ar, br, cr) = inst.evaluate(&vec![l], &vec![l], &vec![l, o]);
    assert!(ar.equals(&o) && br.equals(&o) && cr.equals(&Scalar::from_u64(5)));
}

#[test]
fn digest_depends_on_every_matrix() {
    let one = Scalar::one();
    let m = vec![vec![(0, 0, one)]];
    let n = vec![vec![(0, 1, one)]];
    let d = R1CSInstance::new(1, 2, 2, &m, &m, &m).get_digest();
    assert_eq!(d.len(), 32);
    assert_eq!(d, R1CSInstance::new(1, 2, 2, &m, &m, &m).get_digest());
    assert_ne!(d, R1CSInstance::new(1, 2, 2, &n, &m, &m).get_digest());
    assert_ne!(d, R1CSInstance::new(1, 2, 2, &m, &n, &m).get_digest());
    assert_ne!(d, R1CSInstance::new(1, 2, 2, &m, &m, &n).get_digest());
}
