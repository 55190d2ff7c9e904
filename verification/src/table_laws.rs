//! The values of tables and of matrices.
use crate::dense_mlpoly::{bound_top, eq_evals, evaluation, lemma_eq_evals_len};
use crate::field::{canonical_ops, mul_assoc, mul_comm, mul_zero, neutral};
use crate::poly_laws::{
    law_value_by_binding, law_value_of_rows, lemma_dot_two, lemma_one_weight, row_of,
};
use crate::scalar::{lemma_constants, sadd, smul, sone, ssub, szero, Scalar};
use crate::sparse::{
    bilinear, column_product, fits_in, matrix_product, row_product, vector_product, Entry,
};
use crate::sums::{
    added, all_canonical, column_sums, dot_added, dot_comm, dot_indicator, dot_scaled, dot_zeros,
    row_sums, scaled_list, sum_exchange,
};
use crate::tables::{cube_plane, cube_table, lemma_reversed_bound, reversed};
use crate::vectors::{
    dot, flat, lemma_flat_index, lemma_sum_canonical, lemma_uniform_len, pointwise, repeated,
};
use vstd::arithmetic::power2::{lemma_pow2_unfold, pow2};
use vstd::prelude::*;

verus! {

/// Values in the order of the reversed digits of their positions.
pub open spec fn permuted(z: Seq<Scalar>, n: nat) -> Seq<Scalar> {
    Seq::new(pow2(n), |q: int| z[reversed(q as nat, n) as int])
}

/// Values at positions with reversed digits have, at a point, the value at the
/// reversed point.
pub proof fn law_reversed_value(z: Seq<Scalar>, r: Seq<Scalar>)
    requires
        z.len() == pow2(r.len()),
        all_canonical(z),
        all_canonical(r),
    ensures
        evaluation(permuted(z, r.len()), r) == evaluation(z, r.reverse()),
    decreases r.len(),
{
    let n = r.len();
    vstd::arithmetic::power2::lemma2_to64();
    if n == 0 {
        assert(permuted(z, 0) =~= z);
        assert(r.reverse() =~= r);
    } else {
        let (front, t) = (r.drop_last(), r.last());
        let m = (n - 1) as nat;
        let half = pow2(m);
        lemma_pow2_unfold(n);
        let pz = permuted(z, n);
        assert(front + seq![t] =~= r);
        assert(pow2(1) == 2);
        law_value_of_rows(pz, front, seq![t]);
        let b = bound_top(z, t);
        let rows = Seq::new(half, |i: int| evaluation(row_of(pz, 2, i), seq![t]));
        assert forall|i: int| 0 <= i < half implies rows[i] == permuted(b, m)[i] by {
            lemma_reversed_bound(i as nat, m);
            let c = reversed(i as nat, m) as int;
            lemma_reversed_twice(i as nat, n);
            assert(row_of(pz, 2, i) =~= seq![z[c], z[half + c]]);
            assert(z[c].canonical() && z[half + c].canonical() && t.canonical());
            lemma_one_weight(t);
            lemma_bound_value(t, z[c], z[half + c]);
        }
        assert(rows =~= permuted(b, m));
        assert forall|j: int| 0 <= j < b.len() implies (#[trigger] b[j]).canonical() by {
            canonical_ops(z[j], smul(t, ssub(z[j + half], z[j])));
        }
        law_reversed_value(b, front);
        let rev = r.reverse();
        assert(rev[0] == t);
        assert(rev.skip(1) =~= front.reverse());
        law_value_by_binding(z, rev);
    }
}

/// The reversals of the two numbers with given digits before the last.
proof fn lemma_reversed_twice(i: nat, n: nat)
    requires
        n > 0,
    ensures
        reversed(2 * i, n) == reversed(i, (n - 1) as nat),
        reversed(2 * i + 1, n) == pow2((n - 1) as nat) + reversed(i, (n - 1) as nat),
{
    let p = pow2((n - 1) as nat);
    assert((2 * i) % 2 == 0 && (2 * i) / 2 == i);
    assert((2 * i + 1) % 2 == 1 && (2 * i + 1) / 2 == i);
    assert(0 * p == 0 && 1 * p == p) by (nonlinear_arith);
}

/// The value between two, by weights and by the difference.
proof fn lemma_bound_value(t: Scalar, a: Scalar, b: Scalar)
    requires
        t.canonical(),
        a.canonical(),
        b.canonical(),
    ensures
        evaluation(seq![a, b], seq![t]) == sadd(a, smul(t, ssub(b, a))),
{
    lemma_one_weight(t);
    lemma_dot_two(ssub(sone(), t), t, a, b);
    crate::poly_laws::lemma_bound_entry(t, a, b);
}

/// The value of a table of rows is that of the values of the rows.
pub proof fn law_table_value(m: Seq<Seq<Scalar>>, rl: Seq<Scalar>, rr: Seq<Scalar>)
    requires
        m.len() == pow2(rl.len()),
        forall|i: int| 0 <= i < m.len() ==> (#[trigger] m[i]).len() == pow2(rr.len()),
    ensures
        evaluation(flat(m), rl + rr) == evaluation(
            m.map_values(|row: Seq<Scalar>| evaluation(row, rr)),
            rl,
        ),
{
    let w = pow2(rr.len());
    lemma_uniform_len(m, w);
    law_value_of_rows(flat(m), rl, rr);
    let a = Seq::new(pow2(rl.len()), |i: int| evaluation(row_of(flat(m), w, i), rr));
    assert forall|i: int| 0 <= i < m.len() implies a[i] == evaluation(m[i], rr) by {
        assert(m[i].len() == w);
        assert forall|j: int| 0 <= j < w implies row_of(flat(m), w, i)[j] == m[i][j] by {
            lemma_flat_index(m, w, i, j);
        }
        assert(row_of(flat(m), w, i) =~= m[i]);
    }
    assert(a =~= m.map_values(|row: Seq<Scalar>| evaluation(row, rr)));
}

/// A list with one at a position and zeros elsewhere.
spec fn indicator(n: nat, k: int) -> Seq<Scalar> {
    Seq::new(
        n,
        |i: int|
            if i == k {
                sone()
            } else {
                szero()
            },
    )
}

/// The inner product with a multiple of an indicator.
proof fn lemma_dot_scaled_indicator(w: Seq<Scalar>, c: Scalar, k: int)
    requires
        0 <= k < w.len(),
        w[k].canonical(),
    ensures
        dot(w, scaled_list(c, indicator(w.len(), k))) == smul(c, w[k]),
{
    let e = indicator(w.len(), k);
    dot_scaled(c, w, e);
    dot_indicator(e, w, k);
    dot_comm(w, e);
}

/// The product of one row is a reduced scalar.
pub proof fn lemma_row_canonical(m: Seq<Entry>, z: Seq<Scalar>, row: int)
    ensures
        row_product(m, z, row).canonical(),
    decreases m.len(),
{
    lemma_constants();
    if m.len() > 0 {
        lemma_row_canonical(m.drop_last(), z, row);
        canonical_ops(row_product(m.drop_last(), z, row), smul(m.last().2, z[m.last().1 as int]));
    }
}

proof fn lemma_column_canonical(m: Seq<Entry>, w: Seq<Scalar>, col: int)
    ensures
        column_product(m, w, col).canonical(),
    decreases m.len(),
{
    lemma_constants();
    if m.len() > 0 {
        lemma_column_canonical(m.drop_last(), w, col);
        canonical_ops(
            column_product(m.drop_last(), w, col),
            smul(w[m.last().0 as int], m.last().2),
        );
    }
}

/// The weighted sum of the products of the rows is the value of the matrix
/// between the weights and the vector.
pub proof fn law_rows_weighted(m: Seq<Entry>, w: Seq<Scalar>, z: Seq<Scalar>)
    requires
        fits_in(m, w.len(), z.len()),
        all_canonical(w),
    ensures
        dot(w, matrix_product(m, w.len(), z)) == bilinear(m, w, z),
    decreases m.len(),
{
    let n = w.len();
    let all = matrix_product(m, n, z);
    if m.len() == 0 {
        assert(all =~= repeated(szero(), n));
        dot_zeros(w, n);
    } else {
        let m0 = m.drop_last();
        assert forall|i: int| 0 <= i < m0.len() implies (#[trigger] m0[i]).0 < n && m0[i].1
            < z.len() by {
            assert(m[i].0 < n);
        }
        law_rows_weighted(m0, w, z);
        let (x, y, v) = m.last();
        assert(m[m.len() - 1].0 < n);
        let c = smul(v, z[y as int]);
        let e = indicator(n, x as int);
        let a = matrix_product(m0, n, z);
        let d = scaled_list(c, e);
        canonical_ops(v, z[y as int]);
        assert forall|i: int| 0 <= i < n implies all[i] == sadd(a[i], d[i]) by {
            lemma_row_canonical(m0, z, i);
            neutral(c);
            mul_zero(c);
            neutral(a[i]);
        }
        assert(all =~= added(a, d));
        dot_added(a, d, w);
        lemma_dot_scaled_indicator(w, c, x as int);
        let (wx, zy) = (w[x as int], z[y as int]);
        mul_comm(smul(v, zy), wx);
        mul_comm(v, zy);
        mul_assoc(wx, zy, v);
    }
}

/// The product of the weighted columns with a vector is the value of the
/// matrix between the weights and the vector.
pub proof fn law_columns_weighted(m: Seq<Entry>, w: Seq<Scalar>, z: Seq<Scalar>)
    requires
        fits_in(m, w.len(), z.len()),
        all_canonical(z),
    ensures
        dot(z, vector_product(m, w, z.len())) == bilinear(m, w, z),
    decreases m.len(),
{
    let n = z.len();
    let all = vector_product(m, w, n);
    if m.len() == 0 {
        assert(all =~= repeated(szero(), n));
        dot_zeros(z, n);
    } else {
        let m0 = m.drop_last();
        assert forall|i: int| 0 <= i < m0.len() implies (#[trigger] m0[i]).0 < w.len() && m0[i].1
            < n by {
            assert(m[i].0 < w.len());
        }
        law_columns_weighted(m0, w, z);
        let (x, y, v) = m.last();
        assert(m[m.len() - 1].1 < n);
        let c = smul(w[x as int], v);
        let e = indicator(n, y as int);
        let a = vector_product(m0, w, n);
        let d = scaled_list(c, e);
        canonical_ops(w[x as int], v);
        assert forall|i: int| 0 <= i < n implies all[i] == sadd(a[i], d[i]) by {
            lemma_column_canonical(m0, w, i);
            neutral(c);
            mul_zero(c);
            neutral(a[i]);
        }
        assert(all =~= added(a, d));
        dot_added(a, d, z);
        lemma_dot_scaled_indicator(z, c, y as int);
        let (wx, zy) = (w[x as int], z[y as int]);
        mul_assoc(wx, v, zy);
        mul_comm(v, zy);
        mul_assoc(wx, zy, v);
    }
}

/// Whether a cube has `2^np` instances, each of at most `2^nq` copies of `2^nx`
/// reduced values.
pub open spec fn cube_ok(cube: Seq<Seq<Seq<Scalar>>>, nx: nat, nq: nat, np: nat) -> bool {
    &&& cube.len() == pow2(np)
    &&& forall|p: int| 0 <= p < cube.len() ==> (#[trigger] cube[p]).len() <= pow2(nq)
    &&& forall|p: int, c: int|
        0 <= p < cube.len() && 0 <= c < cube[p].len() ==> (#[trigger] cube[p][c]).len() == pow2(nx)
            && all_canonical(cube[p][c])
}

/// The value at a row, a copy and an instance, and zero where the instance has
/// no such copy.
pub open spec fn cube_at(cube: Seq<Seq<Seq<Scalar>>>, x: int, c: int, p: int) -> Scalar {
    if c < cube[p].len() {
        cube[p][c][x]
    } else {
        szero()
    }
}

/// The weighted sum over the rows of a copy.
pub open spec fn copy_value(
    cube: Seq<Seq<Seq<Scalar>>>,
    ex: Seq<Scalar>,
    c: int,
    p: int,
) -> Scalar {
    if c < cube[p].len() {
        dot(ex, cube[p][c])
    } else {
        szero()
    }
}

/// The weighted sum over the copies of an instance.
pub open spec fn instance_value(
    cube: Seq<Seq<Seq<Scalar>>>,
    ex: Seq<Scalar>,
    eq: Seq<Scalar>,
    p: int,
) -> Scalar {
    dot(eq, Seq::new(eq.len(), |c: int| copy_value(cube, ex, c, p)))
}

/// The weighted sum over all instances.
pub open spec fn cube_sum(
    cube: Seq<Seq<Seq<Scalar>>>,
    ex: Seq<Scalar>,
    eq: Seq<Scalar>,
    ep: Seq<Scalar>,
) -> Scalar {
    dot(ep, Seq::new(ep.len(), |p: int| instance_value(cube, ex, eq, p)))
}

/// The values at a row and a copy.
spec fn plain_line(cube: Seq<Seq<Seq<Scalar>>>, x: int, c: int) -> Seq<Scalar> {
    Seq::new(cube.len(), |p: int| cube_at(cube, x, c, p))
}

/// The value of the table of a cube, row by row.
proof fn lemma_cube_rows(
    cube: Seq<Seq<Seq<Scalar>>>,
    rx: Seq<Scalar>,
    rq: Seq<Scalar>,
    rp: Seq<Scalar>,
)
    requires
        cube_ok(cube, rx.len(), rq.len(), rp.len()),
        all_canonical(rq),
    ensures
        evaluation(cube_table(cube, rq.len(), pow2(rx.len())), rx + (rq + rp)) == dot(
            eq_evals(rx),
            Seq::new(
                pow2(rx.len()),
                |x: int|
                    dot(
                        eq_evals(rq.reverse()),
                        Seq::new(
                            pow2(rq.len()),
                            |c: int| dot(eq_evals(rp), plain_line(cube, x, c)),
                        ),
                    ),
            ),
        ),
{
    let (nx, nq) = (pow2(rx.len()), pow2(rq.len()));
    let planes = Seq::new(nx, |x: int| flat(cube_plane(cube, rq.len(), x)));
    vstd::arithmetic::power2::lemma_pow2_adds(rq.len(), rp.len());
    assert forall|x: int| 0 <= x < nx implies (#[trigger] planes[x]).len() == pow2(
        (rq + rp).len(),
    ) by {
        lemma_uniform_len(cube_plane(cube, rq.len(), x), cube.len());
    }
    law_table_value(planes, rx, rq + rp);
    let a = planes.map_values(|row: Seq<Scalar>| evaluation(row, rq + rp));
    let b = Seq::new(
        nx,
        |x: int|
            dot(
                eq_evals(rq.reverse()),
                Seq::new(nq, |c: int| dot(eq_evals(rp), plain_line(cube, x, c))),
            ),
    );
    assert forall|x: int| 0 <= x < nx implies a[x] == b[x] by {
        let plane = cube_plane(cube, rq.len(), x);
        assert forall|q: int| 0 <= q < plane.len() implies (#[trigger] plane[q]).len() == pow2(
            rp.len(),
        ) by {
        }
        law_table_value(plane, rq, rp);
        let h = Seq::new(nq, |c: int| dot(eq_evals(rp), plain_line(cube, x, c)));
        let vals = plane.map_values(|row: Seq<Scalar>| evaluation(row, rp));
        assert forall|q: int| 0 <= q < nq implies vals[q] == permuted(h, rq.len())[q] by {
            let c = reversed(q as nat, rq.len());
            lemma_reversed_bound(q as nat, rq.len());
            assert(plane[q] =~= plain_line(cube, x, c as int));
        }
        assert(vals =~= permuted(h, rq.len()));
        assert forall|c: int| 0 <= c < h.len() implies (#[trigger] h[c]).canonical() by {
            lemma_sum_canonical(pointwise(eq_evals(rp), plain_line(cube, x, c)));
        }
        law_reversed_value(h, rq);
    }
    assert(a =~= b);
}

/// The value of the table of a cube is the sum, weighted by the coordinates of
/// instances, copies and rows, of its values. The coordinates of the copies
/// come last first.
pub proof fn law_cube_value(
    cube: Seq<Seq<Seq<Scalar>>>,
    rx: Seq<Scalar>,
    rq: Seq<Scalar>,
    rp: Seq<Scalar>,
)
    requires
        cube_ok(cube, rx.len(), rq.len(), rp.len()),
        all_canonical(rq),
    ensures
        evaluation(cube_table(cube, rq.len(), pow2(rx.len())), rx + (rq + rp)) == cube_sum(
            cube,
            eq_evals(rx),
            eq_evals(rq.reverse()),
            eq_evals(rp),
        ),
{
    lemma_cube_rows(cube, rx, rq, rp);
    let (ex, eq, ep) = (eq_evals(rx), eq_evals(rq.reverse()), eq_evals(rp));
    lemma_eq_evals_len(rx);
    lemma_eq_evals_len(rq.reverse());
    lemma_eq_evals_len(rp);
    let (nx, nq, np) = (ex.len(), eq.len(), ep.len());
    let v = |x: int, c: int, p: int| cube_at(cube, x, c, p);
    // instances outside copies, at each row
    let u = |x: int, p: int| dot(eq, Seq::new(nq, |c: int| v(x, c, p)));
    let by_row = Seq::new(
        nx,
        |x: int| dot(eq, Seq::new(nq, |c: int| dot(ep, plain_line(cube, x, c)))),
    );
    assert forall|x: int| 0 <= x < nx implies by_row[x] == #[trigger] row_sums(nx, ep, u)[x] by {
        let m = |c: int, p: int| v(x, c, p);
        sum_exchange(eq, ep, m);
        let (a, b) = (
            row_sums(nq, ep, m),
            Seq::new(nq, |c: int| dot(ep, plain_line(cube, x, c))),
        );
        assert forall|c: int| 0 <= c < nq implies a[c] == b[c] by {
            assert(Seq::new(np, |p: int| m(c, p)) =~= plain_line(cube, x, c));
        }
        assert(a =~= b);
        let (d, e) = (column_sums(eq, np, m), Seq::new(np, |p: int| u(x, p)));
        assert forall|p: int| 0 <= p < np implies d[p] == e[p] by {
            assert(Seq::new(nq, |c: int| m(c, p)) =~= Seq::new(nq, |c: int| v(x, c, p)));
        }
        assert(d =~= e);
    }
    assert(by_row =~= row_sums(nx, ep, u));
    // instances outside rows
    sum_exchange(ex, ep, u);
    // copies outside rows, in each instance
    let (f, g) = (
        column_sums(ex, np, u),
        Seq::new(np, |p: int| instance_value(cube, ex, eq, p)),
    );
    assert forall|p: int| 0 <= p < np implies f[p] == g[p] by {
        let m = |x: int, c: int| v(x, c, p);
        sum_exchange(ex, eq, m);
        let (a, b) = (row_sums(nx, eq, m), Seq::new(nx, |x: int| u(x, p)));
        assert forall|x: int| 0 <= x < nx implies a[x] == b[x] by {
            assert(Seq::new(nq, |c: int| m(x, c)) =~= Seq::new(nq, |c: int| v(x, c, p)));
        }
        assert(a =~= b);
        let (d, e) = (
            column_sums(ex, nq, m),
            Seq::new(nq, |c: int| copy_value(cube, ex, c, p)),
        );
        assert forall|c: int| 0 <= c < nq implies d[c] == e[c] by {
            let col = Seq::new(nx, |x: int| m(x, c));
            if c < cube[p].len() {
                assert(cube[p][c].len() == nx);
                assert(col =~= cube[p][c]);
            } else {
                assert(col =~= repeated(szero(), nx));
                dot_zeros(ex, nx);
            }
        }
        assert(d =~= e);
    }
    assert(f =~= g);
}

} // verus!
