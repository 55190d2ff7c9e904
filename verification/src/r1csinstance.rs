//! Systems of rank-one constraints.
use crate::dense_mlpoly::{eq_evals, EqPolynomial};
use crate::field::{canonical_ops, mul_assoc, mul_comm, neutral};
use crate::group::{shake256, shake256_output};
use crate::math::is_pow2;
use crate::scalar::{is_inverse, sadd, sinv, smul, sone, szero, Scalar};
use crate::sparse::{
    bilinear, copy_entries, evaluate_with_tables, fits_in, matrices, matrix_product, multiply_vec,
    row_product, Entry,
};
use crate::vectors::{copy_of, repeated};
use vstd::arithmetic::power2::pow2;
use vstd::prelude::*;

verus! {

/// Three lists of matrices, one of each list for each instance.
pub struct R1CSInstance {
    num_instances: usize,
    num_cons: usize,
    num_vars: usize,
    a_list: Vec<Vec<Entry>>,
    b_list: Vec<Vec<Entry>>,
    c_list: Vec<Vec<Entry>>,
}

/// What an `R1CSInstance` holds.
#[verifier::ext_equal]
pub struct R1CS {
    /// The number of instances.
    pub num_instances: nat,
    /// The number of constraints of an instance.
    pub num_cons: nat,
    /// The number of values of an assignment.
    pub num_vars: nat,
    /// The left factors.
    pub a: Seq<Seq<Entry>>,
    /// The right factors.
    pub b: Seq<Seq<Entry>>,
    /// The products.
    pub c: Seq<Seq<Entry>>,
}

impl View for R1CSInstance {
    type V = R1CS;

    closed spec fn view(&self) -> R1CS {
        R1CS {
            num_instances: self.num_instances as nat,
            num_cons: self.num_cons as nat,
            num_vars: self.num_vars as nat,
            a: matrices(self.a_list@),
            b: matrices(self.b_list@),
            c: matrices(self.c_list@),
        }
    }
}

impl R1CS {
    /// The matrices are as many in each list, and no more than the instances.
    pub open spec fn balanced(self) -> bool {
        &&& self.a.len() == self.b.len()
        &&& self.a.len() == self.c.len()
        &&& self.a.len() <= self.num_instances
    }

    /// Every entry lies in the matrix.
    pub open spec fn in_range(self) -> bool {
        &&& self.balanced()
        &&& all_fit(self.a, self.num_cons, self.num_vars)
        &&& all_fit(self.b, self.num_cons, self.num_vars)
        &&& all_fit(self.c, self.num_cons, self.num_vars)
    }

    /// Whether the instance `p` is satisfied by `z` in the constraint `x`.
    pub open spec fn holds_at(self, p: int, z: Seq<Scalar>, x: int) -> bool {
        smul(row_product(self.a[p], z, x), row_product(self.b[p], z, x)) == row_product(
            self.c[p],
            z,
            x,
        )
    }

    /// Whether every instance is satisfied by `z`.
    pub open spec fn satisfied_by(self, z: Seq<Scalar>) -> bool {
        forall|p: int, x: int|
            0 <= p < self.a.len() && 0 <= x < self.num_cons ==> #[trigger] self.holds_at(p, z, x)
    }
}

/// Whether every entry of a list of matrices lies in its matrix.
pub open spec fn all_fit(m: Seq<Seq<Entry>>, num_rows: nat, num_cols: nat) -> bool {
    forall|i: int| 0 <= i < m.len() ==> fits_in(#[trigger] m[i], num_rows, num_cols)
}

/// The assignment that variables and inputs make: the variables, a one, the
/// inputs, and zeros up to the size.
pub open spec fn assignment(vars: Seq<Scalar>, input: Seq<Scalar>, size: nat) -> Seq<Scalar> {
    let z = vars.push(sone()) + input;
    z + repeated(szero(), (size - z.len()) as nat)
}

/// The value of a list of matrices at a point.
pub open spec fn list_value(
    m: Seq<Seq<Entry>>,
    ep: Seq<Scalar>,
    ex: Seq<Scalar>,
    ey: Seq<Scalar>,
) -> Scalar
    decreases m.len(),
{
    if m.len() == 0 {
        szero()
    } else {
        sadd(
            list_value(m.drop_last(), ep, ex, ey),
            smul(ep[m.len() - 1], bilinear(m.last(), ex, ey)),
        )
    }
}

/// Eight bytes of a number, the least significant one first.
pub open spec fn le_bytes(x: nat, n: nat) -> Seq<u8>
    decreases n,
{
    if n == 0 {
        Seq::empty()
    } else {
        seq![(x % 256) as u8] + le_bytes(x / 256, (n - 1) as nat)
    }
}

/// The bytes of an entry.
pub open spec fn entry_bytes(e: Entry) -> Seq<u8> {
    le_bytes(e.0 as nat, 8) + le_bytes(e.1 as nat, 8) + e.2.encoding()
}

/// The bytes of the first `k` entries.
pub open spec fn entries_bytes(m: Seq<Entry>, k: nat) -> Seq<u8>
    decreases k,
{
    if k == 0 {
        Seq::empty()
    } else {
        entries_bytes(m, (k - 1) as nat) + entry_bytes(m[k - 1])
    }
}

/// The bytes of the first `k` matrices, each after its length.
pub open spec fn matrices_bytes(l: Seq<Seq<Entry>>, k: nat) -> Seq<u8>
    decreases k,
{
    if k == 0 {
        Seq::empty()
    } else {
        matrices_bytes(l, (k - 1) as nat) + le_bytes(l[k - 1].len(), 8) + entries_bytes(
            l[k - 1],
            l[k - 1].len(),
        )
    }
}

/// The bytes of a list of matrices, after its length.
pub open spec fn list_bytes(l: Seq<Seq<Entry>>) -> Seq<u8> {
    le_bytes(l.len(), 8) + matrices_bytes(l, l.len())
}

/// The bytes that stand for an instance.
pub open spec fn instance_bytes(i: R1CS) -> Seq<u8> {
    le_bytes(i.num_instances, 8) + le_bytes(i.num_cons, 8) + le_bytes(i.num_vars, 8) + list_bytes(
        i.a,
    ) + list_bytes(i.b) + list_bytes(i.c)
}

/// Appends the eight bytes of a number.
pub(crate) fn push_u64(out: &mut Vec<u8>, x: u64)
    ensures
        final(out)@ == old(out)@ + le_bytes(x as nat, 8),
{
    let ghost before = out@;
    let mut y: u64 = x;
    let mut i: usize = 0;
    while i < 8
        invariant
            i <= 8,
            out@ + le_bytes(y as nat, (8 - i) as nat) == before + le_bytes(x as nat, 8),
        decreases 8 - i,
    {
        let ghost was = out@;
        let ghost rest = le_bytes(y as nat / 256, (7 - i) as nat);
        out.push((y % 256) as u8);
        proof {
            assert(was + (seq![(y as nat % 256) as u8] + rest) =~= was.push(
                (y as nat % 256) as u8,
            ) + rest);
        }
        y = y / 256;
        i += 1;
    }
    assert(out@ =~= before + le_bytes(x as nat, 8));
}

fn push_list(out: &mut Vec<u8>, l: &Vec<Vec<Entry>>)
    ensures
        final(out)@ == old(out)@ + list_bytes(matrices(l@)),
{
    let ghost before = out@;
    let ghost list = matrices(l@);
    push_u64(out, l.len() as u64);
    let mut p: usize = 0;
    assert(out@ =~= before + (le_bytes(list.len(), 8) + matrices_bytes(list, 0)));
    while p < l.len()
        invariant
            p <= l@.len(),
            list == matrices(l@),
            out@ == before + (le_bytes(list.len(), 8) + matrices_bytes(list, p as nat)),
        decreases l@.len() - p,
    {
        let m = &l[p];
        let ghost was = out@;
        push_u64(out, m.len() as u64);
        let ghost head = was + le_bytes(m@.len(), 8);
        let mut i: usize = 0;
        assert(out@ =~= head + entries_bytes(m@, 0));
        while i < m.len()
            invariant
                i <= m@.len(),
                out@ == head + entries_bytes(m@, i as nat),
            decreases m@.len() - i,
        {
            let (x, y, v) = m[i];
            let ghost at = out@;
            push_u64(out, x as u64);
            push_u64(out, y as u64);
            out.extend_from_slice(v.to_bytes().as_slice());
            i += 1;
            assert(out@ =~= at + entry_bytes(m@[i - 1]));
            assert(out@ =~= head + entries_bytes(m@, i as nat));
        }
        p += 1;
        assert(list[p - 1] == m@);
        assert(out@ =~= before + (le_bytes(list.len(), 8) + matrices_bytes(list, p as nat)));
    }
    assert(out@ =~= before + list_bytes(list));
}

fn copy_list(l: &Vec<Vec<Entry>>) -> (r: Vec<Vec<Entry>>)
    ensures
        matrices(r@) == matrices(l@),
{
    let mut r: Vec<Vec<Entry>> = Vec::new();
    let mut i: usize = 0;
    while i < l.len()
        invariant
            i <= l@.len(),
            r@.len() == i,
            forall|j: int| 0 <= j < i ==> (#[trigger] r@[j])@ == l@[j]@,
        decreases l@.len() - i,
    {
        r.push(copy_entries(&l[i]));
        i += 1;
    }
    assert(matrices(r@) =~= matrices(l@));
    r
}

fn list_eval(l: &Vec<Vec<Entry>>, ep: &Vec<Scalar>, ex: &Vec<Scalar>, ey: &Vec<Scalar>) -> (r:
    Scalar)
    requires
        l@.len() <= ep@.len(),
        all_fit(matrices(l@), ex@.len(), ey@.len()),
    ensures
        r == list_value(matrices(l@), ep@, ex@, ey@),
{
    let ghost list = matrices(l@);
    let mut r = Scalar::zero();
    let mut i: usize = 0;
    while i < l.len()
        invariant
            i <= l@.len() <= ep@.len(),
            list == matrices(l@),
            all_fit(list, ex@.len(), ey@.len()),
            r == list_value(list.take(i as int), ep@, ex@, ey@),
        decreases l@.len() - i,
    {
        assert(fits_in(list[i as int], ex@.len(), ey@.len()));
        r = r.plus(&ep[i].times(&evaluate_with_tables(&l[i], ex, ey)));
        i += 1;
        assert(list.take(i as int).drop_last() =~= list.take(i - 1));
    }
    assert(list.take(i as int) =~= list);
    r
}

impl R1CSInstance {
    /// An instance with the given matrices.
    pub fn new(
        num_instances: usize,
        num_cons: usize,
        num_vars: usize,
        a_list: &Vec<Vec<Entry>>,
        b_list: &Vec<Vec<Entry>>,
        c_list: &Vec<Vec<Entry>>,
    ) -> (r: R1CSInstance)
        requires
            is_pow2(num_cons as nat),
            is_pow2(num_vars as nat),
        ensures
            r@ == (R1CS {
                num_instances: num_instances as nat,
                num_cons: num_cons as nat,
                num_vars: num_vars as nat,
                a: matrices(a_list@),
                b: matrices(b_list@),
                c: matrices(c_list@),
            }),
    {
        R1CSInstance {
            num_instances,
            num_cons,
            num_vars,
            a_list: copy_list(a_list),
            b_list: copy_list(b_list),
            c_list: copy_list(c_list),
        }
    }

    /// The number of instances.
    pub fn get_num_instances(&self) -> (r: usize)
        ensures
            r == self@.num_instances,
    {
        self.num_instances
    }

    /// The number of constraints of an instance.
    pub fn get_num_cons(&self) -> (r: usize)
        ensures
            r == self@.num_cons,
    {
        self.num_cons
    }

    /// The number of values of an assignment.
    pub fn get_num_vars(&self) -> (r: usize)
        ensures
            r == self@.num_vars,
    {
        self.num_vars
    }

    /// The left factors.
    pub(crate) fn left(&self) -> (r: &Vec<Vec<Entry>>)
        ensures
            matrices(r@) == self@.a,
    {
        &self.a_list
    }

    /// The right factors.
    pub(crate) fn right(&self) -> (r: &Vec<Vec<Entry>>)
        ensures
            matrices(r@) == self@.b,
    {
        &self.b_list
    }

    /// The products.
    pub(crate) fn products(&self) -> (r: &Vec<Vec<Entry>>)
        ensures
            matrices(r@) == self@.c,
    {
        &self.c_list
    }

    /// A hash of the matrices.
    pub fn get_digest(&self) -> (r: Vec<u8>)
        ensures
            r@ == shake256_output(instance_bytes(self@), 32),
    {
        let mut out: Vec<u8> = Vec::new();
        push_u64(&mut out, self.num_instances as u64);
        push_u64(&mut out, self.num_cons as u64);
        push_u64(&mut out, self.num_vars as u64);
        push_list(&mut out, &self.a_list);
        push_list(&mut out, &self.b_list);
        push_list(&mut out, &self.c_list);
        assert(out@ =~= instance_bytes(self@));
        let r = shake256(&out, 32);
        assert(r@ =~= shake256_output(instance_bytes(self@), 32));
        r
    }

    /// Whether variables and inputs satisfy every constraint of every
    /// instance.
    pub fn is_sat(&self, vars: &Vec<Scalar>, input: &Vec<Scalar>) -> (r: bool)
        requires
            self@.in_range(),
            vars@.len() + 1 + input@.len() <= self@.num_vars,
        ensures
            r == self@.satisfied_by(assignment(vars@, input@, self@.num_vars)),
    {
        let mut z = copy_of(vars);
        z.push(Scalar::one());
        crate::vectors::append_all(&mut z, input);
        let pad = crate::vectors::zeros(self.num_vars - z.len());
        crate::vectors::append_all(&mut z, &pad);
        let ghost full = assignment(vars@, input@, self@.num_vars);
        assert(z@ =~= full);
        let mut p: usize = 0;
        while p < self.a_list.len()
            invariant
                p <= self@.a.len(),
                self@.a.len() == self.a_list@.len(),
                self@.in_range(),
                z@ == full,
                full == assignment(vars@, input@, self@.num_vars),
                z@.len() == self@.num_vars,
                forall|i: int, x: int|
                    0 <= i < p && 0 <= x < self@.num_cons ==> #[trigger] self@.holds_at(i, full, x),
            decreases self@.a.len() - p,
        {
            assert(fits_in(self@.a[p as int], self@.num_cons, self@.num_vars));
            assert(fits_in(self@.b[p as int], self@.num_cons, self@.num_vars));
            assert(fits_in(self@.c[p as int], self@.num_cons, self@.num_vars));
            let az = multiply_vec(&self.a_list[p], self.num_cons, &z);
            let bz = multiply_vec(&self.b_list[p], self.num_cons, &z);
            let cz = multiply_vec(&self.c_list[p], self.num_cons, &z);
            let mut x: usize = 0;
            while x < self.num_cons
                invariant
                    p < self@.a.len(),
                    x <= self.num_cons,
                    self@.num_cons == self.num_cons,
                    full == assignment(vars@, input@, self@.num_vars),
                    az@ == matrix_product(self@.a[p as int], self@.num_cons, full),
                    bz@ == matrix_product(self@.b[p as int], self@.num_cons, full),
                    cz@ == matrix_product(self@.c[p as int], self@.num_cons, full),
                    forall|y: int| 0 <= y < x ==> #[trigger] self@.holds_at(p as int, full, y),
                decreases self.num_cons - x,
            {
                if !az[x].times(&bz[x]).equals(&cz[x]) {
                    assert(!self@.holds_at(p as int, full, x as int));
                    return false;
                }
                x += 1;
            }
            p += 1;
        }
        true
    }

    /// The values of the three lists of matrices at a point: `rp` picks the
    /// instance, `rx` the row and `ry` the column.
    pub fn evaluate(&self, rp: &Vec<Scalar>, rx: &Vec<Scalar>, ry: &Vec<Scalar>) -> (r: (
        Scalar,
        Scalar,
        Scalar,
    ))
        requires
            self@.in_range(),
            self@.a.len() <= pow2(rp@.len()) <= usize::MAX,
            pow2(rx@.len()) <= usize::MAX,
            pow2(ry@.len()) <= usize::MAX,
            self@.num_cons <= pow2(rx@.len()),
            self@.num_vars <= pow2(ry@.len()),
        ensures
            r.0 == list_value(self@.a, eq_evals(rp@), eq_evals(rx@), eq_evals(ry@)),
            r.1 == list_value(self@.b, eq_evals(rp@), eq_evals(rx@), eq_evals(ry@)),
            r.2 == list_value(self@.c, eq_evals(rp@), eq_evals(rx@), eq_evals(ry@)),
    {
        let ep = EqPolynomial::new(copy_of(rp)).evals();
        let ex = EqPolynomial::new(copy_of(rx)).evals();
        let ey = EqPolynomial::new(copy_of(ry)).evals();
        proof {
            lemma_all_fit(self@.a, self@.num_cons, self@.num_vars, ex@.len(), ey@.len());
            lemma_all_fit(self@.b, self@.num_cons, self@.num_vars, ex@.len(), ey@.len());
            lemma_all_fit(self@.c, self@.num_cons, self@.num_vars, ex@.len(), ey@.len());
        }
        (
            list_eval(&self.a_list, &ep, &ex, &ey),
            list_eval(&self.b_list, &ep, &ex, &ey),
            list_eval(&self.c_list, &ep, &ex, &ey),
        )
    }
}

proof fn lemma_all_fit(m: Seq<Seq<Entry>>, r: nat, c: nat, r2: nat, c2: nat)
    requires
        all_fit(m, r, c),
        r <= r2,
        c <= c2,
    ensures
        all_fit(m, r2, c2),
{
    assert forall|i: int| 0 <= i < m.len() implies fits_in(#[trigger] m[i], r2, c2) by {
        assert(fits_in(m[i], r, c));
    }
}

/// Whether the entry `i` of a matrix lies in the row `i`.
pub open spec fn one_per_row(m: Seq<Entry>) -> bool {
    forall|i: int| 0 <= i < m.len() ==> (#[trigger] m[i]).0 == i
}

/// In a matrix with one entry for each row, the product of a row is that of
/// its entry.
pub proof fn lemma_one_per_row(m: Seq<Entry>, z: Seq<Scalar>, x: int)
    requires
        one_per_row(m),
        0 <= x,
    ensures
        row_product(m, z, x) == if x < m.len() {
            smul(m[x].2, z[m[x].1 as int])
        } else {
            szero()
        },
    decreases m.len(),
{
    if m.len() > 0 {
        let rest = m.drop_last();
        assert forall|i: int| 0 <= i < rest.len() implies (#[trigger] rest[i]).0 == i by {
            assert(m[i].0 == i);
        }
        lemma_one_per_row(rest, z, x);
        assert(m[m.len() - 1].0 == m.len() - 1);
        if x == m.len() - 1 {
            let p = smul(m.last().2, z[m.last().1 as int]);
            canonical_ops(m.last().2, z[m.last().1 as int]);
            neutral(p);
        }
    }
}

/// The matrix of ones with the column of the entry `i` shifted by `shift`.
pub open spec fn shifted_ones(num_cons: nat, size: nat, shift: nat) -> Seq<Entry> {
    Seq::new(num_cons, |i: int| (i as usize, ((i + shift) % (size as int)) as usize, sone()))
}

/// Whether a synthetic constraint holds: the product is made up by an entry
/// in a column whose value is not zero, or in that of the one.
proof fn lemma_synthetic(ab: Scalar, c: Scalar)
    requires
        ab.canonical(),
        c.canonical(),
        c@ != 0,
        is_inverse(c, sinv(c)),
    ensures
        smul(smul(ab, sinv(c)), c) == ab,
{
    let i = sinv(c);
    mul_assoc(ab, i, c);
    mul_comm(i, c);
    crate::scalar::lemma_smul_view(c, i);
    crate::scalar::lemma_constants();
    crate::scalar::lemma_scalar_injective(smul(c, i), sone());
    neutral(ab);
}

impl R1CSInstance {
    /// Makes up an instance of one system of constraints, with variables and
    /// inputs that satisfy it.
    pub fn produce_synthetic_r1cs(num_cons: usize, num_vars: usize, num_inputs: usize) -> (r: (
        R1CSInstance,
        Vec<Scalar>,
        Vec<Scalar>,
    ))
        requires
            is_pow2(num_cons as nat),
            is_pow2(num_vars as nat),
            num_inputs < num_vars,
            2 * num_vars <= usize::MAX,
            num_cons + 3 <= usize::MAX,
        ensures
            r.0@.num_instances == 1,
            r.0@.num_cons == num_cons,
            r.0@.num_vars == 2 * num_vars,
            r.0@.in_range(),
            r.0@.a == seq![shifted_ones(num_cons as nat, (num_vars + num_inputs + 1) as nat, 0)],
            r.0@.b == seq![shifted_ones(num_cons as nat, (num_vars + num_inputs + 1) as nat, 2)],
            r.0@.c.len() == 1,
            r.0@.c[0].len() == num_cons,
            one_per_row(r.0@.c[0]),
            r.1@.len() == num_vars,
            r.2@.len() == num_inputs,
            r.0@.satisfied_by(assignment(r.1@, r.2@, r.0@.num_vars)),
    {
        let size: usize = num_vars + num_inputs + 1;
        let mut vars: Vec<Scalar> = Vec::new();
        let mut input: Vec<Scalar> = Vec::new();
        let mut i: usize = 0;
        while i < num_vars
            invariant
                i <= num_vars,
                vars@.len() == i,
                forall|j: int| 0 <= j < i ==> (#[trigger] vars@[j]).canonical(),
            decreases num_vars - i,
        {
            vars.push(Scalar::random());
            i += 1;
        }
        let mut i: usize = 0;
        while i < num_inputs
            invariant
                i <= num_inputs,
                input@.len() == i,
                forall|j: int| 0 <= j < i ==> (#[trigger] input@[j]).canonical(),
            decreases num_inputs - i,
        {
            input.push(Scalar::random());
            i += 1;
        }
        let mut z = copy_of(&vars);
        z.push(Scalar::one());
        crate::vectors::append_all(&mut z, &input);
        let ghost full = assignment(vars@, input@, 2 * num_vars as nat);
        proof {
            crate::scalar::lemma_constants();
            assert(z@.len() == size);
            assert forall|j: int| 0 <= j < size implies (#[trigger] z@[j]).canonical() && z@[j]
                == full[j] by {
                if j < num_vars {
                    assert(z@[j] == vars@[j]);
                } else if j > num_vars {
                    assert(z@[j] == input@[j - num_vars - 1]);
                }
            }
            assert(z@[num_vars as int] == sone());
        }
        let ghost sz = size as nat;
        let ghost all_a = shifted_ones(num_cons as nat, sz, 0);
        let ghost all_b = shifted_ones(num_cons as nat, sz, 2);
        let mut a: Vec<Entry> = Vec::new();
        let mut b: Vec<Entry> = Vec::new();
        let mut c: Vec<Entry> = Vec::new();
        let one = Scalar::one();
        let mut i: usize = 0;
        while i < num_cons
            invariant
                i <= num_cons,
                num_cons + 3 <= usize::MAX,
                one == sone(),
                size == num_vars + num_inputs + 1,
                size <= 2 * num_vars,
                z@.len() == size,
                sz == size,
                z@[num_vars as int] == sone(),
                forall|j: int| 0 <= j < size ==> (#[trigger] z@[j]).canonical(),
                all_a == shifted_ones(num_cons as nat, sz, 0),
                all_b == shifted_ones(num_cons as nat, sz, 2),
                a@ == all_a.take(i as int),
                b@ == all_b.take(i as int),
                c@.len() == i,
                one_per_row(c@),
                fits_in(c@, num_cons as nat, size as nat),
                forall|j: int|
                    0 <= j < i ==> smul((#[trigger] c@[j]).2, z@[c@[j].1 as int]) == smul(
                        z@[j % (size as int)],
                        z@[(j + 2) % (size as int)],
                    ),
            decreases num_cons - i,
        {
            let a_idx: usize = i % size;
            let b_idx: usize = (i + 2) % size;
            let c_idx: usize = (i + 3) % size;
            a.push((i, a_idx, one));
            b.push((i, b_idx, one));
            let ab = z[a_idx].times(&z[b_idx]);
            let c_val = z[c_idx];
            proof {
                assert(z@[c_idx as int].canonical());
                canonical_ops(z@[a_idx as int], z@[b_idx as int]);
                neutral(ab);
            }
            match c_val.invert() {
                Some(inv) => {
                    proof {
                        lemma_synthetic(ab, c_val);
                    }
                    c.push((i, c_idx, ab.times(&inv)));
                },
                None => {
                    c.push((i, num_vars, ab));
                },
            }
            i += 1;
            assert(a@ =~= all_a.take(i as int));
            assert(b@ =~= all_b.take(i as int));
        }
        assert(a@ =~= all_a);
        assert(b@ =~= all_b);
        proof {
            crate::sparse_mlpoly::lemma_pow2_product(num_vars as nat, num_vars as nat);
        }
        let a_list: Vec<Vec<Entry>> = vec![a];
        let b_list: Vec<Vec<Entry>> = vec![b];
        let c_list: Vec<Vec<Entry>> = vec![c];
        let inst = R1CSInstance::new(1, num_cons, 2 * num_vars, &a_list, &b_list, &c_list);
        proof {
            let v = inst@;
            assert(v.a =~= seq![all_a]);
            assert(v.b =~= seq![all_b]);
            assert(v.c =~= seq![c@]);
            assert(fits_in(all_a, v.num_cons, v.num_vars));
            assert(fits_in(all_b, v.num_cons, v.num_vars));
            assert(fits_in(c@, v.num_cons, v.num_vars));
            assert forall|p: int, x: int|
                0 <= p < v.a.len() && 0 <= x < v.num_cons implies #[trigger] v.holds_at(
                p,
                full,
                x,
            ) by {
                lemma_one_per_row(all_a, full, x);
                lemma_one_per_row(all_b, full, x);
                lemma_one_per_row(c@, full, x);
                let (ai, bi) = (x % (size as int), (x + 2) % (size as int));
                assert(z@[ai] == full[ai] && z@[bi] == full[bi]);
                assert(z@[ai].canonical() && z@[bi].canonical());
                assert(c@[x].1 < size);
                assert(z@[c@[x].1 as int] == full[c@[x].1 as int]);
                neutral(z@[ai]);
                neutral(z@[bi]);
            }
        }
        (inst, vars, input)
    }
}

} // verus!
