//! What the sum-checks of a proof of satisfiability claim is true.
use crate::commitments::Gens;
use crate::dense_mlpoly::{bound_top, eq_evals, evaluation};
use crate::field::{canonical_ops, mul_comm, neutral};
use crate::poly_laws::law_value_by_binding;
use crate::r1csproof::bound_front;
use crate::scalar::{lemma_constants, sadd, smul, ssub, szero, Scalar};
use crate::sparse::{fits_in, matrix_product, vector_product, Entry};
use crate::sumcheck::{
    first_round, leftovers, one_round, round_evals, sumcheck_prove, sumcheck_rounds, Comb, Rounds,
};
use crate::sumcheck_laws::{tables_ok, vertex_column, vertex_sum};
use crate::sums::{
    added, all_canonical, column_sums, dot_added, dot_comm, dot_concat, dot_scaled, dot_zeros,
    row_sums, scaled_list, sum_concat, sum_exchange, sum_scaled,
};
use crate::table_laws::{copy_value, instance_value, law_columns_weighted, law_rows_weighted};
use crate::tables::{copies_bound, products_of, stretched, weighted_three};
use crate::transcript::{challenges, History};
use crate::vectors::{
    dot, flat, lemma_flat_index, lemma_sum_canonical, lemma_uniform_len, pointwise, repeated, sum,
};
use vstd::arithmetic::power2::{lemma_pow2_unfold, pow2};
use vstd::prelude::*;

verus! {

/// The values of polynomials are those of what remains of them when their
/// first coordinates are set.
pub proof fn lemma_bound_front(z: Seq<Scalar>, r: Seq<Scalar>, k: nat)
    requires
        z.len() == pow2(r.len()),
        all_canonical(z),
        all_canonical(r),
        k <= r.len(),
    ensures
        bound_front(z, r, k).len() == pow2((r.len() - k) as nat),
        all_canonical(bound_front(z, r, k)),
        evaluation(z, r) == evaluation(bound_front(z, r, k), r.skip(k as int)),
    decreases k,
{
    if k == 0 {
        assert(r.skip(0) =~= r);
    } else {
        let p = (k - 1) as nat;
        lemma_bound_front(z, r, p);
        let y = bound_front(z, r, p);
        let rest = r.skip(p as int);
        let half = pow2((r.len() - k) as nat);
        lemma_pow2_unfold((r.len() - p) as nat);
        assert(y.len() == 2 * half);
        law_value_by_binding(y, rest);
        assert(rest.skip(1) =~= r.skip(k as int));
        let b = bound_top(y, r[p as int]);
        assert forall|j: int| 0 <= j < b.len() implies (#[trigger] b[j]).canonical() by {
            canonical_ops(y[j], smul(r[p as int], ssub(y[j + half], y[j])));
        }
    }
}

/// Only the coordinates that are set matter.
pub proof fn lemma_bound_front_same(z: Seq<Scalar>, a: Seq<Scalar>, b: Seq<Scalar>, k: nat)
    requires
        k <= a.len(),
        k <= b.len(),
        a.take(k as int) == b.take(k as int),
    ensures
        bound_front(z, a, k) == bound_front(z, b, k),
    decreases k,
{
    if k > 0 {
        let p = (k - 1) as nat;
        assert(a.take(p as int) =~= a.take(k as int).take(p as int));
        assert(b.take(p as int) =~= b.take(k as int).take(p as int));
        lemma_bound_front_same(z, a, b, p);
        assert(a[p as int] == a.take(k as int)[p as int]);
        assert(b[p as int] == b.take(k as int)[p as int]);
    }
}

/// What the rounds of a sum-check leave of the tables.
proof fn lemma_rounds_bind(
    s: Rounds,
    tables: Seq<Seq<Scalar>>,
    comb: Comb,
    bp: Seq<Scalar>,
    be: Seq<Scalar>,
    g1: Gens,
    gn: Gens,
    k: nat,
)
    requires
        s.r.len() == 0,
    ensures
        ({
            let (out, ts) = sumcheck_rounds(s, tables, comb, bp, be, g1, gn, k);
            &&& out.r.len() == k
            &&& all_canonical(out.r)
            &&& ts == tables.map_values(|t: Seq<Scalar>| bound_front(t, out.r, k))
        }),
    decreases k,
{
    if k == 0 {
        assert(tables =~= tables.map_values(|t: Seq<Scalar>| bound_front(t, s.r, 0)));
    } else {
        let p = (k - 1) as nat;
        lemma_rounds_bind(s, tables, comb, bp, be, g1, gn, p);
        let (s1, t1) = sumcheck_rounds(s, tables, comb, bp, be, g1, gn, p);
        let s2 = one_round(s1, round_evals(t1, comb, s1.claim), bp[k - 1], be[k - 1], g1, gn);
        crate::sumcheck_laws::lemma_round_challenge(
            s1,
            round_evals(t1, comb, s1.claim),
            bp[k - 1],
            be[k - 1],
            g1,
            gn,
        );
        let r = s2.r.last();
        assert(s2.r == s1.r.push(r));
        let ts = t1.map_values(|t: Seq<Scalar>| bound_top(t, r));
        let want = tables.map_values(|t: Seq<Scalar>| bound_front(t, s2.r, k));
        assert forall|m: int| 0 <= m < tables.len() implies ts[m] == want[m] by {
            assert(s2.r.take(p as int) =~= s1.r.take(p as int));
            lemma_bound_front_same(tables[m], s1.r, s2.r, p);
        }
        assert(ts =~= want);
    }
}

/// A sum-check draws one challenge for each of its rounds.
pub proof fn lemma_check_challenges(
    claim: Scalar,
    blind: Scalar,
    n: nat,
    tables: Seq<Seq<Scalar>>,
    comb: Comb,
    g1: Gens,
    gn: Gens,
    th: History,
    rh: History,
)
    ensures
        ({
            let r = sumcheck_prove(claim, blind, n, tables, comb, g1, gn, th, rh).0.r;
            r.len() == n && all_canonical(r)
        }),
{
    let (bp, rh1) = challenges(rh, "blinds_poly"@, n);
    let (be, rh2) = challenges(rh1, "blinds_evals"@, n);
    lemma_rounds_bind(first_round(claim, blind, g1, th, rh2), tables, comb, bp, be, g1, gn, n);
}

/// What a sum-check leaves of each table is the value of its polynomial at the
/// challenges.
pub proof fn law_leftovers(
    claim: Scalar,
    blind: Scalar,
    n: nat,
    tables: Seq<Seq<Scalar>>,
    comb: Comb,
    g1: Gens,
    gn: Gens,
    th: History,
    rh: History,
)
    requires
        tables_ok(tables, comb, pow2(n)),
    ensures
        ({
            let (out, ts) = sumcheck_prove(claim, blind, n, tables, comb, g1, gn, th, rh);
            &&& out.r.len() == n
            &&& all_canonical(out.r)
            &&& leftovers(ts) == tables.map_values(|t: Seq<Scalar>| evaluation(t, out.r))
        }),
{
    let (bp, rh1) = challenges(rh, "blinds_poly"@, n);
    let (be, rh2) = challenges(rh1, "blinds_evals"@, n);
    let s = first_round(claim, blind, g1, th, rh2);
    lemma_rounds_bind(s, tables, comb, bp, be, g1, gn, n);
    let (out, ts) = sumcheck_rounds(s, tables, comb, bp, be, g1, gn, n);
    let want = tables.map_values(|t: Seq<Scalar>| evaluation(t, out.r));
    assert forall|m: int| 0 <= m < tables.len() implies leftovers(ts)[m] == want[m] by {
        let t = tables[m];
        assert(t.len() == pow2(n) && all_canonical(t));
        lemma_bound_front(t, out.r, n);
        let b = bound_front(t, out.r, n);
        vstd::arithmetic::power2::lemma2_to64();
        assert(b.len() == 1);
        assert(b[0].canonical());
        let none = out.r.skip(n as int);
        assert(none =~= Seq::<Scalar>::empty());
        lemma_value_nowhere(b);
    }
    assert(leftovers(ts) =~= want);
}

/// The value of a polynomial without coordinates.
pub proof fn lemma_value_nowhere(b: Seq<Scalar>)
    requires
        b.len() == 1,
        b[0].canonical(),
    ensures
        evaluation(b, Seq::empty()) == b[0],
{
    lemma_constants();
    neutral(b[0]);
    let e = eq_evals(Seq::<Scalar>::empty());
    assert(e =~= seq![crate::scalar::sone()]);
    let p = pointwise(e, b);
    assert(p =~= seq![b[0]]);
    reveal_with_fuel(sum, 2);
    assert(p.drop_last() =~= Seq::<Scalar>::empty());
}

/// The sum over vertices is the sum of the list of the combinations.
pub proof fn lemma_vertex_list(tables: Seq<Seq<Scalar>>, comb: Comb, k: nat)
    ensures
        vertex_sum(tables, comb, k) == sum(
            Seq::new(k, |i: int| comb.apply(vertex_column(tables, i))),
        ),
    decreases k,
{
    if k > 0 {
        let p = (k - 1) as nat;
        lemma_vertex_list(tables, comb, p);
        let (a, b) = (
            Seq::new(k, |i: int| comb.apply(vertex_column(tables, i))),
            Seq::new(p, |i: int| comb.apply(vertex_column(tables, i))),
        );
        assert(a.drop_last() =~= b);
    }
}

/// The sum of a list of rows.
proof fn lemma_sum_flat(m: Seq<Seq<Scalar>>)
    ensures
        sum(flat(m)) == sum(m.map_values(|row: Seq<Scalar>| sum(row))),
    decreases m.len(),
{
    let s = m.map_values(|row: Seq<Scalar>| sum(row));
    if m.len() > 0 {
        lemma_sum_flat(m.drop_last());
        sum_concat(flat(m.drop_last()), m.last());
        assert(s.drop_last() =~= m.drop_last().map_values(|row: Seq<Scalar>| sum(row)));
    }
}

/// The place of a position in rows of one width.
pub proof fn lemma_place(k: int, width: nat, count: nat)
    requires
        0 <= k < count * width,
    ensures
        width > 0,
        0 <= k / (width as int) < count,
        0 <= k % (width as int) < width,
        k == (k / (width as int)) * width + k % (width as int),
{
    let w = width as int;
    assert(w > 0) by (nonlinear_arith)
        requires
            0 <= k < count * width,
            w == width,
    ;
    vstd::arithmetic::div_mod::lemma_fundamental_div_mod(k, w);
    vstd::arithmetic::div_mod::lemma_mod_bound(k, w);
    assert(0 <= k / w < count) by (nonlinear_arith)
        requires
            k == w * (k / w) + k % w,
            0 <= k % w < w,
            0 <= k < count * w,
    ;
    assert(w * (k / w) == (k / w) * width) by (nonlinear_arith)
        requires
            w == width,
    ;
}

/// The sum over instances and columns, instance by instance.
pub proof fn lemma_cubic_sum(zs: Seq<Seq<Scalar>>, ws: Seq<Seq<Scalar>>, e: Seq<Scalar>, width: nat)
    requires
        zs.len() == e.len(),
        ws.len() == e.len(),
        forall|p: int| 0 <= p < zs.len() ==> (#[trigger] zs[p]).len() == width,
        forall|p: int| 0 <= p < ws.len() ==> (#[trigger] ws[p]).len() == width,
    ensures
        vertex_sum(
            seq![flat(zs), flat(ws), stretched(e, width)],
            Comb::Cubic,
            e.len() * width,
        ) == dot(e, Seq::new(e.len(), |p: int| dot(zs[p], ws[p]))),
{
    let n = e.len() * width;
    let es = e.map_values(|x: Scalar| repeated(x, width));
    let tables = seq![flat(zs), flat(ws), flat(es)];
    let d = Seq::new(e.len(), |p: int| dot(zs[p], ws[p]));
    let m = Seq::new(e.len(), |p: int| scaled_list(e[p], pointwise(zs[p], ws[p])));
    lemma_vertex_list(tables, Comb::Cubic, n);
    let list = Seq::new(n, |k: int| Comb::Cubic.apply(vertex_column(tables, k)));
    lemma_uniform_len(m, width);
    assert forall|k: int| 0 <= k < n implies list[k] == flat(m)[k] by {
        lemma_place(k, width, e.len());
        let (p, y) = (k / (width as int), k % (width as int));
        lemma_flat_index(zs, width, p, y);
        lemma_flat_index(ws, width, p, y);
        lemma_flat_index(es, width, p, y);
        lemma_flat_index(m, width, p, y);
        let c = vertex_column(tables, k);
        assert(c[0] == zs[p][y] && c[1] == ws[p][y] && c[2] == e[p]);
        mul_comm(e[p], smul(zs[p][y], ws[p][y]));
    }
    assert(list =~= flat(m));
    lemma_sum_flat(m);
    let sums = m.map_values(|row: Seq<Scalar>| sum(row));
    assert forall|p: int| 0 <= p < e.len() implies sums[p] == pointwise(e, d)[p] by {
        sum_scaled(e[p], pointwise(zs[p], ws[p]));
    }
    assert(sums =~= pointwise(e, d));
}

/// A matrix between row weights and the combination of copies is the
/// combination of the products of the copies, weighted.
pub proof fn lemma_instance(
    m: Seq<Entry>,
    z: Seq<Seq<Scalar>>,
    ex: Seq<Scalar>,
    eq: Seq<Scalar>,
    cube: Seq<Seq<Seq<Scalar>>>,
    p: int,
    width: nat,
)
    requires
        fits_in(m, ex.len(), width),
        forall|c: int| 0 <= c < z.len() ==> (#[trigger] z[c]).len() == width && all_canonical(z[c]),
        all_canonical(ex),
        z.len() <= eq.len(),
        cube[p] == products_of(m, ex.len(), z),
    ensures
        dot(copies_bound(z, eq, width), vector_product(m, ex, width)) == instance_value(
            cube,
            ex,
            eq,
            p,
        ),
{
    let zb = copies_bound(z, eq, width);
    let v = vector_product(m, ex, width);
    let front = eq.take(z.len() as int);
    dot_comm(zb, v);
    let at = |y: int, c: int| z[c][y];
    sum_exchange(v, front, at);
    let a = row_sums(width, front, at);
    assert forall|y: int| 0 <= y < width implies a[y] == zb[y] by {
        let col = Seq::new(z.len(), |c: int| z[c][y]);
        assert(Seq::new(front.len(), |c: int| at(y, c)) =~= col);
        dot_comm(front, col);
        assert(pointwise(col, front) =~= pointwise(col, eq));
    }
    assert(a =~= zb);
    let d = column_sums(v, z.len(), at);
    let want = Seq::new(eq.len(), |c: int| copy_value(cube, ex, c, p));
    assert forall|c: int| 0 <= c < z.len() implies d[c] == want[c] by {
        assert(z[c].len() == width);
        assert(Seq::new(width, |y: int| at(y, c)) =~= z[c]);
        dot_comm(v, z[c]);
        law_columns_weighted(m, ex, z[c]);
        law_rows_weighted(m, ex, z[c]);
        assert(cube[p][c] == matrix_product(m, ex.len(), z[c]));
    }
    assert(d =~= want.take(z.len() as int));
    // copies that are not there
    let (back, zeros) = (eq.skip(z.len() as int), want.skip(z.len() as int));
    assert(zeros =~= repeated(szero(), back.len()));
    dot_zeros(back, back.len());
    assert(front + back =~= eq);
    assert(want.take(z.len() as int) + zeros =~= want);
    dot_concat(front, back, want.take(z.len() as int), zeros);
    lemma_sum_canonical(pointwise(front, d));
    neutral(dot(front, d));
}

/// Three weighted lists of rows, row by row.
pub proof fn lemma_weighted_rows(
    ra: Scalar,
    rb: Scalar,
    rc: Scalar,
    a: Seq<Seq<Scalar>>,
    b: Seq<Seq<Scalar>>,
    c: Seq<Seq<Scalar>>,
    width: nat,
)
    requires
        a.len() == b.len(),
        a.len() == c.len(),
        forall|p: int| 0 <= p < a.len() ==> (#[trigger] a[p]).len() == width,
        forall|p: int| 0 <= p < b.len() ==> (#[trigger] b[p]).len() == width,
        forall|p: int| 0 <= p < c.len() ==> (#[trigger] c[p]).len() == width,
    ensures
        weighted_three(ra, rb, rc, flat(a), flat(b), flat(c)) == flat(
            Seq::new(a.len(), |p: int| weighted_three(ra, rb, rc, a[p], b[p], c[p])),
        ),
{
    let m = Seq::new(a.len(), |p: int| weighted_three(ra, rb, rc, a[p], b[p], c[p]));
    let all = weighted_three(ra, rb, rc, flat(a), flat(b), flat(c));
    lemma_uniform_len(a, width);
    lemma_uniform_len(m, width);
    assert forall|k: int| 0 <= k < all.len() implies all[k] == flat(m)[k] by {
        lemma_place(k, width, a.len());
        let (p, y) = (k / (width as int), k % (width as int));
        lemma_flat_index(a, width, p, y);
        lemma_flat_index(b, width, p, y);
        lemma_flat_index(c, width, p, y);
        lemma_flat_index(m, width, p, y);
    }
    assert(all =~= flat(m));
}

/// The inner product with three weighted lists.
pub proof fn lemma_dot_weighted(
    z: Seq<Scalar>,
    ra: Scalar,
    rb: Scalar,
    rc: Scalar,
    a: Seq<Scalar>,
    b: Seq<Scalar>,
    c: Seq<Scalar>,
)
    requires
        a.len() == z.len(),
        b.len() == z.len(),
        c.len() == z.len(),
    ensures
        dot(z, weighted_three(ra, rb, rc, a, b, c)) == sadd(
            sadd(smul(ra, dot(z, a)), smul(rb, dot(z, b))),
            smul(rc, dot(z, c)),
        ),
{
    let (x, y, w) = (scaled_list(ra, a), scaled_list(rb, b), scaled_list(rc, c));
    assert(weighted_three(ra, rb, rc, a, b, c) =~= added(added(x, y), w));
    dot_added(added(x, y), w, z);
    dot_added(x, y, z);
    dot_scaled(ra, z, a);
    dot_scaled(rb, z, b);
    dot_scaled(rc, z, c);
}

} // verus!
