//! Instances mean what the entries say that they are read from.
use crate::bullet::inverse_or_zero;
use crate::field::{mul_comm, mul_zero, neutral};
use crate::instance::{
    cons_padded, first_error, lemma_cons_padded, lemma_no_error, lemma_no_error_at, matrix_error,
    read_entry, read_matrices, read_matrix, RawEntry,
};
use crate::math::next_pow2;
use crate::r1csinstance::{le_bytes, lemma_one_per_row, shifted_ones, R1CS};
use crate::scalar::{
    is_inverse, le_value, lemma_constants, lemma_encoding_of, lemma_scalar_injective, lemma_sinv,
    lemma_smul_view, order, smul, sone, szero, Scalar,
};
use crate::sparse::{row_product, Entry};
use crate::sumcheck_laws::{stands_add, stands_for, stands_mul};
use vstd::arithmetic::power::{lemma_pow0, pow};
use vstd::arithmetic::power2::{lemma2_to64, lemma_pow2_adds, pow2};
use vstd::prelude::*;

verus! {

/// The sum, over the entries of a row as they are read, of the integers of their
/// bytes times the values that their columns name.
pub open spec fn raw_sum(m: Seq<RawEntry>, z: Seq<Scalar>, x: int) -> int
    decreases m.len(),
{
    if m.len() == 0 {
        0
    } else {
        let (row, col, bytes) = m.last();
        raw_sum(m.drop_last(), z, x) + if row == x {
            le_value(bytes@) * z[col as int]@
        } else {
            0
        }
    }
}

/// A row of a matrix that is read has, with an assignment, the product that its
/// entries say.
pub proof fn law_row_read(m: Seq<RawEntry>, num_cons: nat, num_vars: nat, z: Seq<Scalar>, x: int)
    requires
        matrix_error(m, num_cons, num_vars) is None,
    ensures
        row_product(read_matrix(m, num_cons, num_vars), z, x)@ == raw_sum(m, z, x) % (
        order() as int),
{
    let entries = m.map_values(|e: RawEntry| read_entry(e));
    lemma_row_entries(m, num_cons, num_vars, z, x);
    let r = read_matrix(m, num_cons, num_vars);
    assert(r.take(m.len() as int) =~= entries);
    lemma_row_zeros(r, m.len(), z, x);
}

proof fn lemma_row_entries(
    m: Seq<RawEntry>,
    num_cons: nat,
    num_vars: nat,
    z: Seq<Scalar>,
    x: int,
)
    requires
        matrix_error(m, num_cons, num_vars) is None,
    ensures
        stands_for(
            row_product(m.map_values(|e: RawEntry| read_entry(e)), z, x),
            raw_sum(m, z, x),
        ),
    decreases m.len(),
{
    lemma_constants();
    let e = m.map_values(|e: RawEntry| read_entry(e));
    if m.len() > 0 {
        let m0 = m.drop_last();
        lemma_row_entries(m0, num_cons, num_vars, z, x);
        assert(e.drop_last() =~= m0.map_values(|e: RawEntry| read_entry(e)));
        lemma_no_error(m, num_cons, num_vars, m.len() - 1);
        let (row, col, bytes) = m.last();
        lemma_encoding_of(bytes@);
        let v = Scalar::of(le_value(bytes@));
        lemma_smul_view(v, z[col as int]);
        stands_add(
            row_product(e.drop_last(), z, x),
            raw_sum(m0, z, x),
            smul(v, z[col as int]),
            (le_value(bytes@) * z[col as int]@) as int,
        );
    }
}

/// Entries that are zero add nothing.
proof fn lemma_row_zeros(m: Seq<Entry>, k: nat, z: Seq<Scalar>, x: int)
    requires
        k <= m.len(),
        forall|i: int| k <= i < m.len() ==> (#[trigger] m[i]).2 == szero(),
    ensures
        row_product(m, z, x) == row_product(m.take(k as int), z, x),
    decreases m.len(),
{
    if k == m.len() {
        assert(m.take(k as int) =~= m);
    } else {
        let m0 = m.drop_last();
        lemma_row_zeros(m0, k, z, x);
        assert(m0.take(k as int) =~= m.take(k as int));
        assert(m[m.len() - 1].2 == szero());
        mul_zero(z[m.last().1 as int]);
        crate::table_laws::lemma_row_canonical(m0, z, x);
        neutral(row_product(m0, z, x));
    }
}

/// Rows without entries have no sum.
proof fn lemma_no_row(m: Seq<RawEntry>, num_cons: nat, num_vars: nat, z: Seq<Scalar>, x: int)
    requires
        matrix_error(m, num_cons, num_vars) is None,
        x >= num_cons,
    ensures
        raw_sum(m, z, x) == 0,
    decreases m.len(),
{
    if m.len() > 0 {
        lemma_no_row(m.drop_last(), num_cons, num_vars, z, x);
        lemma_no_error(m, num_cons, num_vars, m.len() - 1);
    }
}

/// A constraint of an instance that is read holds where the product of what its
/// first two rows say is what its third row says, in the field.
pub proof fn law_constraint_read(
    a: Seq<Vec<RawEntry>>,
    b: Seq<Vec<RawEntry>>,
    c: Seq<Vec<RawEntry>>,
    num_cons: nat,
    num_vars: nat,
    n: nat,
    z: Seq<Scalar>,
    p: int,
    x: int,
)
    requires
        first_error(a, b, c, num_cons, num_vars, n) is None,
        0 <= p < n,
    ensures
        (R1CS {
            num_instances: next_pow2(n),
            num_cons: cons_padded(num_cons),
            num_vars: next_pow2(num_vars),
            a: read_matrices(a, num_cons, num_vars, n),
            b: read_matrices(b, num_cons, num_vars, n),
            c: read_matrices(c, num_cons, num_vars, n),
        }).holds_at(p, z, x) <==> (raw_sum(a[p]@, z, x) * raw_sum(b[p]@, z, x)) % (order() as int)
            == raw_sum(c[p]@, z, x) % (order() as int),
{
    lemma_no_error_at(a, b, c, num_cons, num_vars, n, p);
    law_row_read(a[p]@, num_cons, num_vars, z, x);
    law_row_read(b[p]@, num_cons, num_vars, z, x);
    law_row_read(c[p]@, num_cons, num_vars, z, x);
    let (ra, rb, rc) = (
        row_product(read_matrix(a[p]@, num_cons, num_vars), z, x),
        row_product(read_matrix(b[p]@, num_cons, num_vars), z, x),
        row_product(read_matrix(c[p]@, num_cons, num_vars), z, x),
    );
    stands_mul(ra, raw_sum(a[p]@, z, x), rb, raw_sum(b[p]@, z, x));
    if smul(ra, rb)@ == rc@ {
        lemma_scalar_injective(smul(ra, rb), rc);
    }
}

/// An assignment satisfies an instance that is read if and only if in each of
/// its constraints the product of what the first two rows say is what the third
/// row says, in the field. The rows that are filled up add no condition.
pub proof fn law_instance_read(
    a: Seq<Vec<RawEntry>>,
    b: Seq<Vec<RawEntry>>,
    c: Seq<Vec<RawEntry>>,
    num_cons: nat,
    num_vars: nat,
    n: nat,
    z: Seq<Scalar>,
)
    requires
        first_error(a, b, c, num_cons, num_vars, n) is None,
    ensures
        (R1CS {
            num_instances: next_pow2(n),
            num_cons: cons_padded(num_cons),
            num_vars: next_pow2(num_vars),
            a: read_matrices(a, num_cons, num_vars, n),
            b: read_matrices(b, num_cons, num_vars, n),
            c: read_matrices(c, num_cons, num_vars, n),
        }).satisfied_by(z) <==> forall|p: int, x: int|
            0 <= p < n && 0 <= x < num_cons ==> (raw_sum(a[p]@, z, x) * #[trigger] raw_sum(
                b[p]@,
                z,
                x,
            )) % (order() as int) == raw_sum(c[p]@, z, x) % (order() as int),
{
    let i = R1CS {
        num_instances: next_pow2(n),
        num_cons: cons_padded(num_cons),
        num_vars: next_pow2(num_vars),
        a: read_matrices(a, num_cons, num_vars, n),
        b: read_matrices(b, num_cons, num_vars, n),
        c: read_matrices(c, num_cons, num_vars, n),
    };
    lemma_cons_padded(num_cons);
    let q = order() as int;
    if i.satisfied_by(z) {
        assert forall|p: int, x: int| 0 <= p < n && 0 <= x < num_cons implies (raw_sum(
            a[p]@,
            z,
            x,
        ) * #[trigger] raw_sum(b[p]@, z, x)) % q == raw_sum(c[p]@, z, x) % q by {
            assert(i.holds_at(p, z, x));
            law_constraint_read(a, b, c, num_cons, num_vars, n, z, p, x);
        }
    }
    if forall|p: int, x: int|
        0 <= p < n && 0 <= x < num_cons ==> (raw_sum(a[p]@, z, x) * #[trigger] raw_sum(
            b[p]@,
            z,
            x,
        )) % q == raw_sum(c[p]@, z, x) % q {
        assert forall|p: int, x: int| 0 <= p < i.a.len() && 0 <= x < i.num_cons implies
        #[trigger] i.holds_at(p, z, x) by {
            law_constraint_read(a, b, c, num_cons, num_vars, n, z, p, x);
            if x >= num_cons {
                lemma_no_error_at(a, b, c, num_cons, num_vars, n, p);
                lemma_no_row(a[p]@, num_cons, num_vars, z, x);
                lemma_no_row(b[p]@, num_cons, num_vars, z, x);
                lemma_no_row(c[p]@, num_cons, num_vars, z, x);
            } else {
                assert((raw_sum(a[p]@, z, x) * raw_sum(b[p]@, z, x)) % q == raw_sum(c[p]@, z, x)
                    % q);
            }
        }
    }
}

/// The order is `2^252 + 27742317777372353535851937790883648493`.
pub proof fn law_order()
    ensures
        order() == pow2(252) + 27742317777372353535851937790883648493,
{
    lemma2_to64();
    lemma_pow2_adds(32, 28);
    lemma_pow2_adds(64, 60);
    lemma_pow2_adds(64, 64);
    lemma_pow2_adds(128, 124);
    let (a, b, c) = (pow2(32), pow2(28), pow2(64));
    assert((c * c) * (c * (a * b)) + 27742317777372353535851937790883648493 == order())
        by (nonlinear_arith)
        requires
            a == 4294967296,
            b == 268435456,
            c == 18446744073709551616,
    ;
}

/// In bytes each byte weighs 256 times as much as the one before it, and the
/// first one counts once.
pub proof fn law_bytes_value(s: Seq<u8>, b: u8)
    ensures
        le_value(Seq::empty()) == 0,
        le_value(s.push(b)) == le_value(s) + b * pow(256, s.len()),
    decreases s.len(),
{
    reveal(pow);
    let t = s.push(b);
    if s.len() == 0 {
        assert(t.drop_first() =~= Seq::empty());
        assert(le_value(t) == t[0] as nat + 256 * le_value(t.drop_first()));
        lemma_pow0(256);
    } else {
        let n = (s.len() - 1) as nat;
        law_bytes_value(s.drop_first(), b);
        assert(t.drop_first() =~= s.drop_first().push(b));
        assert(pow(256, s.len()) == 256 * pow(256, n));
        let v = le_value(s.drop_first()) as int;
        assert(256 * (v + b * pow(256, n)) == 256 * v + b * (256 * pow(256, n)))
            by (nonlinear_arith);
    }
}

/// The bytes of a number encode it, least significant byte first.
pub proof fn law_number_bytes(x: nat, n: nat)
    requires
        x < pow2(8 * n),
    ensures
        le_bytes(x, n).len() == n,
        le_value(le_bytes(x, n)) == x,
    decreases n,
{
    lemma2_to64();
    if n > 0 {
        let m = (n - 1) as nat;
        lemma_pow2_adds(8 * m, 8);
        assert(x / 256 < pow2(8 * m)) by (nonlinear_arith)
            requires
                x < pow2(8 * m) * 256,
        ;
        law_number_bytes(x / 256, m);
        assert(le_bytes(x, n).drop_first() =~= le_bytes(x / 256, m));
    }
}

/// What stands for the inverse of a challenge is zero for zero, and else its
/// inverse, wherever there is one.
pub proof fn law_inverse(u: Scalar, b: Scalar)
    requires
        u@ != 0 ==> b.canonical() && (u@ * b@) % order() == 1,
    ensures
        u@ == 0 ==> inverse_or_zero(u)@ == 0,
        u@ != 0 ==> (u@ * inverse_or_zero(u)@) % order() == 1,
{
    lemma_constants();
    if u@ != 0 {
        assert(is_inverse(u, b));
        lemma_sinv(u);
    }
}

/// In a synthetic instance the row `x` of a factor reads one value: that at `x`
/// and the shift, counted round the values.
pub proof fn law_synthetic_rows(num_cons: nat, size: nat, shift: nat, z: Seq<Scalar>, x: int)
    requires
        0 <= x < num_cons,
        num_cons <= usize::MAX,
        0 < size <= z.len(),
        size <= usize::MAX,
        z[(x + shift) % size as int].canonical(),
    ensures
        row_product(shifted_ones(num_cons, size, shift), z, x) == z[(x + shift) % size as int],
{
    let m = shifted_ones(num_cons, size, shift);
    vstd::arithmetic::div_mod::lemma_mod_bound(x + shift, size as int);
    lemma_one_per_row(m, z, x);
    mul_comm(sone(), z[(x + shift) % size as int]);
    neutral(z[(x + shift) % size as int]);
}

} // verus!
