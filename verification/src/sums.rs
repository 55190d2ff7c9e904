//! The laws of sums and inner products.
use crate::field::{add_assoc, distrib, four, mul_assoc, mul_comm, mul_zero, neutral};
use crate::scalar::{lemma_constants, sadd, smul, sone, szero, Scalar};
use crate::vectors::{dot, lemma_sum_canonical, pointwise, repeated, sum};
use vstd::prelude::*;

verus! {

/// Whether every entry of a list is reduced.
pub open spec fn all_canonical(s: Seq<Scalar>) -> bool {
    forall|i: int| 0 <= i < s.len() ==> (#[trigger] s[i]).canonical()
}

/// A list times a scalar.
pub open spec fn scaled_list(c: Scalar, s: Seq<Scalar>) -> Seq<Scalar> {
    Seq::new(s.len(), |i: int| smul(c, s[i]))
}

/// The sums of the entries of two lists.
pub open spec fn added(a: Seq<Scalar>, b: Seq<Scalar>) -> Seq<Scalar> {
    Seq::new(a.len(), |i: int| sadd(a[i], b[i]))
}

/// The sum of a list with one entry more.
pub proof fn sum_push(s: Seq<Scalar>, x: Scalar)
    ensures
        sum(s.push(x)) == sadd(sum(s), x),
{
    assert(s.push(x).drop_last() =~= s);
}

/// The sum of a concatenation.
pub proof fn sum_concat(a: Seq<Scalar>, b: Seq<Scalar>)
    ensures
        sum(a + b) == sadd(sum(a), sum(b)),
    decreases b.len(),
{
    if b.len() == 0 {
        assert(a + b =~= a);
        lemma_sum_canonical(a);
        neutral(sum(a));
    } else {
        sum_concat(a, b.drop_last());
        assert((a + b).drop_last() =~= a + b.drop_last());
        assert((a + b).last() == b.last());
        add_assoc(sum(a), sum(b.drop_last()), b.last());
    }
}

/// The sum of a scaled list.
pub proof fn sum_scaled(c: Scalar, s: Seq<Scalar>)
    ensures
        sum(scaled_list(c, s)) == smul(c, sum(s)),
    decreases s.len(),
{
    if s.len() == 0 {
        mul_zero(c);
    } else {
        sum_scaled(c, s.drop_last());
        assert(scaled_list(c, s).drop_last() =~= scaled_list(c, s.drop_last()));
        distrib(c, sum(s.drop_last()), s.last());
    }
}

/// The sum of the sums of the entries of two lists.
pub proof fn sum_added(a: Seq<Scalar>, b: Seq<Scalar>)
    requires
        a.len() == b.len(),
    ensures
        sum(added(a, b)) == sadd(sum(a), sum(b)),
    decreases a.len(),
{
    if a.len() == 0 {
        lemma_constants();
        neutral(szero());
    } else {
        sum_added(a.drop_last(), b.drop_last());
        assert(added(a, b).drop_last() =~= added(a.drop_last(), b.drop_last()));
        four(sum(a.drop_last()), sum(b.drop_last()), a.last(), b.last());
    }
}

/// The sum of zeros is zero.
pub proof fn sum_zeros(n: nat)
    ensures
        sum(repeated(szero(), n)) == szero(),
    decreases n,
{
    if n > 0 {
        sum_zeros((n - 1) as nat);
        assert(repeated(szero(), n).drop_last() =~= repeated(szero(), (n - 1) as nat));
        lemma_constants();
        neutral(szero());
    }
}

/// The inner product with one entry more on each side.
pub proof fn dot_push(a: Seq<Scalar>, x: Scalar, b: Seq<Scalar>, y: Scalar)
    requires
        a.len() == b.len(),
    ensures
        dot(a.push(x), b.push(y)) == sadd(dot(a, b), smul(x, y)),
{
    assert(pointwise(a.push(x), b.push(y)) =~= pointwise(a, b).push(smul(x, y)));
    sum_push(pointwise(a, b), smul(x, y));
}

/// The inner product of concatenations.
pub proof fn dot_concat(a: Seq<Scalar>, b: Seq<Scalar>, c: Seq<Scalar>, d: Seq<Scalar>)
    requires
        a.len() == c.len(),
        b.len() == d.len(),
    ensures
        dot(a + b, c + d) == sadd(dot(a, c), dot(b, d)),
{
    assert(pointwise(a + b, c + d) =~= pointwise(a, c) + pointwise(b, d));
    sum_concat(pointwise(a, c), pointwise(b, d));
}

/// The inner product is symmetric.
pub proof fn dot_comm(a: Seq<Scalar>, b: Seq<Scalar>)
    requires
        a.len() == b.len(),
    ensures
        dot(a, b) == dot(b, a),
{
    assert forall|i: int| 0 <= i < a.len() implies pointwise(a, b)[i] == pointwise(b, a)[i] by {
        mul_comm(a[i], b[i]);
    }
    assert(pointwise(a, b) =~= pointwise(b, a));
}

/// A factor may be taken out of an inner product.
pub proof fn dot_scaled(c: Scalar, a: Seq<Scalar>, b: Seq<Scalar>)
    requires
        a.len() == b.len(),
    ensures
        dot(scaled_list(c, a), b) == smul(c, dot(a, b)),
        dot(a, scaled_list(c, b)) == smul(c, dot(a, b)),
{
    let p = scaled_list(c, pointwise(a, b));
    assert forall|i: int| 0 <= i < a.len() implies pointwise(scaled_list(c, a), b)[i] == p[i]
        && pointwise(a, scaled_list(c, b))[i] == p[i] by {
        mul_assoc(c, a[i], b[i]);
        mul_comm(a[i], smul(c, b[i]));
        mul_assoc(c, b[i], a[i]);
        mul_comm(a[i], b[i]);
    }
    assert(pointwise(scaled_list(c, a), b) =~= p);
    assert(pointwise(a, scaled_list(c, b)) =~= p);
    sum_scaled(c, pointwise(a, b));
}

/// The inner product is additive.
pub proof fn dot_added(a: Seq<Scalar>, b: Seq<Scalar>, c: Seq<Scalar>)
    requires
        a.len() == b.len(),
        a.len() == c.len(),
    ensures
        dot(added(a, b), c) == sadd(dot(a, c), dot(b, c)),
        dot(c, added(a, b)) == sadd(dot(c, a), dot(c, b)),
{
    let p = added(pointwise(a, c), pointwise(b, c));
    assert forall|i: int| 0 <= i < a.len() implies pointwise(added(a, b), c)[i] == p[i] by {
        distrib(c[i], a[i], b[i]);
    }
    assert(pointwise(added(a, b), c) =~= p);
    sum_added(pointwise(a, c), pointwise(b, c));
    dot_comm(c, added(a, b));
    dot_comm(c, a);
    dot_comm(c, b);
}

/// The inner product with zeros is zero.
pub proof fn dot_zeros(a: Seq<Scalar>, n: nat)
    requires
        a.len() == n,
    ensures
        dot(repeated(szero(), n), a) == szero(),
        dot(a, repeated(szero(), n)) == szero(),
{
    assert forall|i: int| 0 <= i < n implies pointwise(repeated(szero(), n), a)[i] == szero() by {
        mul_zero(a[i]);
    }
    assert(pointwise(repeated(szero(), n), a) =~= repeated(szero(), n));
    sum_zeros(n);
    dot_comm(a, repeated(szero(), n));
}

/// The inner product with a list that is one at one place and zero elsewhere.
pub proof fn dot_indicator(e: Seq<Scalar>, z: Seq<Scalar>, k: int)
    requires
        e.len() == z.len(),
        0 <= k < z.len(),
        z[k].canonical(),
        forall|i: int| 0 <= i < e.len() ==> #[trigger] e[i] == if i == k {
            sone()
        } else {
            szero()
        },
    ensures
        dot(e, z) == z[k],
    decreases z.len(),
{
    let n = (z.len() - 1) as int;
    let (e0, z0) = (e.drop_last(), z.drop_last());
    assert(e0.push(e.last()) =~= e);
    assert(z0.push(z.last()) =~= z);
    dot_push(e0, e.last(), z0, z.last());
    lemma_constants();
    if k == n {
        assert(e0 =~= repeated(szero(), n as nat));
        dot_zeros(z0, n as nat);
        neutral(z[k]);
    } else {
        dot_indicator(e0, z0, k);
        mul_zero(z.last());
        neutral(z[k]);
    }
}

/// Two summations may be exchanged. Row `i` of the matrix is weighted by
/// `l[i]`, column `j` by `r[j]`.
pub proof fn sum_exchange(
    l: Seq<Scalar>,
    r: Seq<Scalar>,
    m: spec_fn(int, int) -> Scalar,
)
    ensures
        dot(l, row_sums(l.len(), r, m)) == dot(r, column_sums(l, r.len(), m)),
    decreases l.len(),
{
    if l.len() == 0 {
        assert(pointwise(l, row_sums(0, r, m)) =~= Seq::<Scalar>::empty());
        assert forall|j: int| 0 <= j < r.len() implies #[trigger] column_sums(l, r.len(), m)[j]
            == szero() by {
            assert(pointwise(l, Seq::new(0, |i: int| m(i, j))) =~= Seq::<Scalar>::empty());
        }
        assert(column_sums(l, r.len(), m) =~= repeated(szero(), r.len()));
        dot_zeros(r, r.len());
    } else {
        let n = l.len() - 1;
        let l0 = l.drop_last();
        sum_exchange(l0, r, m);
        let rs = row_sums(l.len(), r, m);
        assert(rs =~= row_sums(l0.len(), r, m).push(dot(r, Seq::new(r.len(), |j: int| m(n, j)))));
        assert(l =~= l0.push(l.last()));
        dot_push(l0, l.last(), row_sums(l0.len(), r, m), rs.last());
        let last_row = Seq::new(r.len(), |j: int| m(n, j));
        let more = scaled_list(l.last(), last_row);
        let cs = column_sums(l, r.len(), m);
        let cs0 = column_sums(l0, r.len(), m);
        assert forall|j: int| 0 <= j < r.len() implies #[trigger] cs[j] == sadd(cs0[j], more[j]) by {
            let col = Seq::new(l.len(), |i: int| m(i, j));
            let col0 = Seq::new(l0.len(), |i: int| m(i, j));
            assert(col =~= col0.push(m(n, j)));
            dot_push(l0, l.last(), col0, m(n, j));
        }
        assert(cs =~= added(cs0, more));
        dot_added(cs0, more, r);
        dot_scaled(l.last(), r, last_row);
    }
}

/// The weighted sums of the rows of a matrix.
pub open spec fn row_sums(rows: nat, r: Seq<Scalar>, m: spec_fn(int, int) -> Scalar) -> Seq<Scalar> {
    Seq::new(rows, |i: int| dot(r, Seq::new(r.len(), |j: int| m(i, j))))
}

/// The weighted sums of the columns of a matrix.
pub open spec fn column_sums(l: Seq<Scalar>, cols: nat, m: spec_fn(int, int) -> Scalar) -> Seq<
    Scalar,
> {
    Seq::new(cols, |j: int| dot(l, Seq::new(l.len(), |i: int| m(i, j))))
}

} // verus!
