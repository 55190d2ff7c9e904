//! Products of vectors and matrices, as integers modulo the order.
use crate::r1csinstance::list_value;
use crate::scalar::{lemma_constants, order, smul, Scalar};
use crate::sparse::{bilinear, column_product, fits_in, Entry};
use crate::sumcheck_laws::{stands_add, stands_for, stands_itself, stands_mul};
use crate::sums::all_canonical;
use crate::vectors::{dot, pointwise, sum};
use vstd::prelude::*;

verus! {

/// The integer `a[0] b[0] + ... + a[n - 1] b[n - 1]`.
pub open spec fn inner_total(a: Seq<Scalar>, b: Seq<Scalar>, n: nat) -> int
    decreases n,
{
    if n == 0 {
        0
    } else {
        inner_total(a, b, (n - 1) as nat) + a[n - 1]@ * b[n - 1]@
    }
}

/// The integer that the entries of a matrix sum up to, each times the values
/// that two vectors have at its row and at its column.
pub open spec fn between_total(m: Seq<Entry>, w: Seq<Scalar>, z: Seq<Scalar>, n: nat) -> int
    decreases n,
{
    if n == 0 {
        0
    } else {
        between_total(m, w, z, (n - 1) as nat) + w[m[n - 1].0 as int]@ * z[m[n - 1].1 as int]@
            * m[n - 1].2@
    }
}

/// The integer that the entries of one column sum up to, each times the value
/// that a vector has at its row.
pub open spec fn column_total(m: Seq<Entry>, w: Seq<Scalar>, y: int, n: nat) -> int
    decreases n,
{
    if n == 0 {
        0
    } else {
        column_total(m, w, y, (n - 1) as nat) + if m[n - 1].1 == y {
            w[m[n - 1].0 as int]@ * m[n - 1].2@
        } else {
            0
        }
    }
}

/// The integer that matrices between two vectors sum up to, each times its
/// weight.
pub open spec fn list_total(
    l: Seq<Seq<Entry>>,
    v: Seq<Scalar>,
    w: Seq<Scalar>,
    z: Seq<Scalar>,
    n: nat,
) -> int
    decreases n,
{
    if n == 0 {
        0
    } else {
        list_total(l, v, w, z, (n - 1) as nat) + v[n - 1]@ * between_total(
            l[n - 1],
            w,
            z,
            l[n - 1].len(),
        )
    }
}

/// Whether all values of a matrix are reduced.
pub open spec fn values_canonical(m: Seq<Entry>) -> bool {
    forall|k: int| 0 <= k < m.len() ==> (#[trigger] m[k]).2.canonical()
}

proof fn lemma_zero_stands(s: Scalar)
    requires
        s@ == 0,
    ensures
        stands_for(s, 0),
{
    vstd::arithmetic::div_mod::lemma_small_mod(0, order());
}

proof fn lemma_inner(a: Seq<Scalar>, b: Seq<Scalar>, n: nat)
    requires
        n <= a.len() <= b.len(),
        all_canonical(a),
        all_canonical(b),
    ensures
        stands_for(sum(pointwise(a, b).take(n as int)), inner_total(a, b, n)),
    decreases n,
{
    lemma_constants();
    let p = pointwise(a, b).take(n as int);
    if n == 0 {
        lemma_zero_stands(sum(p));
    } else {
        let m = (n - 1) as nat;
        lemma_inner(a, b, m);
        assert(p.drop_last() =~= pointwise(a, b).take(m as int));
        assert(a[n - 1].canonical() && b[n - 1].canonical());
        stands_itself(a[n - 1]);
        stands_itself(b[n - 1]);
        stands_mul(a[n - 1], a[n - 1]@ as int, b[n - 1], b[n - 1]@ as int);
        stands_add(
            sum(p.drop_last()),
            inner_total(a, b, m),
            smul(a[n - 1], b[n - 1]),
            a[n - 1]@ * b[n - 1]@ as int,
        );
    }
}

/// An inner product is the sum of the products of the integers.
pub proof fn law_inner_product_integer(a: Seq<Scalar>, b: Seq<Scalar>)
    requires
        a.len() <= b.len(),
        all_canonical(a),
        all_canonical(b),
    ensures
        dot(a, b)@ == inner_total(a, b, a.len()) % (order() as int),
{
    lemma_inner(a, b, a.len());
    assert(pointwise(a, b).take(a.len() as int) =~= pointwise(a, b));
}

proof fn lemma_between_front(m: Seq<Entry>, w: Seq<Scalar>, z: Seq<Scalar>, n: nat)
    requires
        n < m.len(),
    ensures
        between_total(m.drop_last(), w, z, n) == between_total(m, w, z, n),
    decreases n,
{
    if n > 0 {
        lemma_between_front(m, w, z, (n - 1) as nat);
    }
}

/// The value of a matrix between two vectors is the sum of its entries, each
/// times the values at its row and at its column.
pub proof fn law_matrix_value(m: Seq<Entry>, w: Seq<Scalar>, z: Seq<Scalar>)
    requires
        fits_in(m, w.len(), z.len()),
        values_canonical(m),
        all_canonical(w),
        all_canonical(z),
    ensures
        bilinear(m, w, z)@ == between_total(m, w, z, m.len()) % (order() as int),
    decreases m.len(),
{
    lemma_constants();
    if m.len() == 0 {
        lemma_zero_stands(bilinear(m, w, z));
    } else {
        let (m0, n) = (m.drop_last(), (m.len() - 1) as nat);
        let (x, y, v) = m.last();
        assert(m[m.len() - 1] == (x, y, v));
        assert forall|k: int| 0 <= k < m0.len() implies (#[trigger] m0[k]).2.canonical() by {
            assert(m[k].2.canonical());
        }
        assert forall|k: int| 0 <= k < m0.len() implies (#[trigger] m0[k]).0 < w.len() && m0[k].1
            < z.len() by {
            assert(m[k].0 < w.len() && m[k].1 < z.len());
        }
        law_matrix_value(m0, w, z);
        lemma_between_front(m, w, z, n);
        assert(w[x as int].canonical() && z[y as int].canonical() && v.canonical());
        stands_itself(w[x as int]);
        stands_itself(z[y as int]);
        stands_itself(v);
        let (p, q) = (w[x as int]@ as int, z[y as int]@ as int);
        stands_mul(w[x as int], p, z[y as int], q);
        stands_mul(smul(w[x as int], z[y as int]), p * q, v, v@ as int);
        stands_add(
            bilinear(m0, w, z),
            between_total(m0, w, z, n),
            smul(smul(w[x as int], z[y as int]), v),
            p * q * v@,
        );
    }
}

proof fn lemma_column_front(m: Seq<Entry>, w: Seq<Scalar>, y: int, n: nat)
    requires
        n < m.len(),
    ensures
        column_total(m.drop_last(), w, y, n) == column_total(m, w, y, n),
    decreases n,
{
    if n > 0 {
        lemma_column_front(m, w, y, (n - 1) as nat);
    }
}

/// The product of a vector with a column of a matrix is the sum of the entries
/// of that column, each times the value at its row.
pub proof fn law_column_value(m: Seq<Entry>, w: Seq<Scalar>, y: int)
    requires
        forall|k: int| 0 <= k < m.len() ==> (#[trigger] m[k]).0 < w.len(),
        values_canonical(m),
        all_canonical(w),
    ensures
        column_product(m, w, y)@ == column_total(m, w, y, m.len()) % (order() as int),
    decreases m.len(),
{
    lemma_constants();
    if m.len() == 0 {
        lemma_zero_stands(column_product(m, w, y));
    } else {
        let (m0, n) = (m.drop_last(), (m.len() - 1) as nat);
        let (x, c, v) = m.last();
        assert(m[m.len() - 1] == (x, c, v));
        assert forall|k: int| 0 <= k < m0.len() implies (#[trigger] m0[k]).2.canonical() by {
            assert(m[k].2.canonical());
        }
        assert forall|k: int| 0 <= k < m0.len() implies (#[trigger] m0[k]).0 < w.len() by {
            assert(m[k].0 < w.len());
        }
        law_column_value(m0, w, y);
        lemma_column_front(m, w, y, n);
        if c == y {
            assert(w[x as int].canonical() && v.canonical());
            stands_itself(w[x as int]);
            stands_itself(v);
            stands_mul(w[x as int], w[x as int]@ as int, v, v@ as int);
            stands_add(
                column_product(m0, w, y),
                column_total(m0, w, y, n),
                smul(w[x as int], v),
                w[x as int]@ * v@ as int,
            );
        }
    }
}

proof fn lemma_list_front(
    l: Seq<Seq<Entry>>,
    v: Seq<Scalar>,
    w: Seq<Scalar>,
    z: Seq<Scalar>,
    n: nat,
)
    requires
        n < l.len(),
    ensures
        list_total(l.drop_last(), v, w, z, n) == list_total(l, v, w, z, n),
    decreases n,
{
    if n > 0 {
        lemma_list_front(l, v, w, z, (n - 1) as nat);
    }
}

/// The value of a list of matrices is the sum of their values, each times the
/// weight of its instance.
pub proof fn law_list_value(
    l: Seq<Seq<Entry>>,
    v: Seq<Scalar>,
    w: Seq<Scalar>,
    z: Seq<Scalar>,
)
    requires
        l.len() <= v.len(),
        forall|p: int|
            0 <= p < l.len() ==> fits_in(#[trigger] l[p], w.len(), z.len()) && values_canonical(
                l[p],
            ),
        all_canonical(v),
        all_canonical(w),
        all_canonical(z),
    ensures
        list_value(l, v, w, z)@ == list_total(l, v, w, z, l.len()) % (order() as int),
    decreases l.len(),
{
    lemma_constants();
    if l.len() == 0 {
        lemma_zero_stands(list_value(l, v, w, z));
    } else {
        let (l0, n) = (l.drop_last(), (l.len() - 1) as nat);
        let m = l.last();
        assert(l[l.len() - 1] == m);
        assert forall|p: int| 0 <= p < l0.len() implies fits_in(
            #[trigger] l0[p],
            w.len(),
            z.len(),
        ) && values_canonical(l0[p]) by {
            assert(fits_in(l[p], w.len(), z.len()));
        }
        law_list_value(l0, v, w, z);
        lemma_list_front(l, v, w, z, n);
        law_matrix_value(m, w, z);
        assert(v[n as int].canonical());
        stands_itself(v[n as int]);
        let t = between_total(m, w, z, m.len());
        stands_mul(v[n as int], v[n as int]@ as int, bilinear(m, w, z), t);
        stands_add(
            list_value(l0, v, w, z),
            list_total(l0, v, w, z, n),
            smul(v[n as int], bilinear(m, w, z)),
            v[n as int]@ * t,
        );
    }
}

} // verus!
