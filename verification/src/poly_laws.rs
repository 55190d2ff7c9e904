//! What the values of multilinear polynomials come to.
use crate::dense_mlpoly::{
    bound_top, column, combined_rows, eq_evals, evaluation, lemma_eq_evals_len,
};
use crate::field::{
    add_assoc, add_comm, canonical_ops, distrib_sub, mul_assoc, mul_comm, mul_zero, neutral,
    sub_add, sub_self,
};
use crate::math::{bit, bits};
use crate::openings::corner;
use crate::scalar::{lemma_constants, sadd, smul, sone, ssub, szero, Scalar};
use crate::sums::{all_canonical, column_sums, dot_comm, dot_indicator, row_sums, sum_exchange};
use crate::vectors::{dot, pointwise, repeated, sum};
use vstd::arithmetic::div_mod::lemma_div_denominator;
use vstd::arithmetic::power2::{lemma_pow2_pos, lemma_pow2_unfold, pow2};
use vstd::prelude::*;

verus! {

/// The digits of a number without the last are those of its half.
pub proof fn lemma_bits_half(x: nat, n: nat)
    requires
        n > 0,
    ensures
        bits(x, n).drop_last() == bits(x / 2, (n - 1) as nat),
        bits(x, n).last() == bit(x),
{
    let a = bits(x, n).drop_last();
    let b = bits(x / 2, (n - 1) as nat);
    vstd::arithmetic::power2::lemma2_to64();
    assert forall|j: int| 0 <= j < n - 1 implies a[j] == b[j] by {
        let k = (n - 1 - j) as nat;
        lemma_pow2_unfold(k);
        lemma_pow2_pos((k - 1) as nat);
        lemma_div_denominator(x as int, 2, pow2((k - 1) as nat) as int);
        assert(2 * pow2((k - 1) as nat) == pow2(k));
    }
    assert(a =~= b);
    assert(x / 1 == x);
}

/// The weights at a vertex: one at the vertex and zero at all others.
pub proof fn lemma_eq_at_vertex(x: nat, n: nat, i: int)
    requires
        x < pow2(n),
        0 <= i < pow2(n),
    ensures
        eq_evals(bits(x, n))[i] == if i == x {
            sone()
        } else {
            szero()
        },
    decreases n,
{
    vstd::arithmetic::power2::lemma2_to64();
    lemma_constants();
    if n == 0 {
        assert(bits(x, n) =~= Seq::<Scalar>::empty());
    } else {
        lemma_pow2_unfold(n);
        lemma_bits_half(x, n);
        lemma_eq_evals_len(bits(x, n));
        lemma_eq_evals_len(bits(x / 2, (n - 1) as nat));
        lemma_eq_at_vertex(x / 2, (n - 1) as nat, i / 2);
        let t = eq_evals(bits(x / 2, (n - 1) as nat))[i / 2];
        assert(t.canonical());
        neutral(t);
        mul_zero(t);
        sub_self(t);
    }
}

/// The value at a vertex is the one that the polynomial was given there.
pub proof fn law_value_at_vertex(z: Seq<Scalar>, x: nat, n: nat)
    requires
        z.len() == pow2(n),
        x < pow2(n),
        z[x as int].canonical(),
    ensures
        evaluation(z, bits(x, n)) == z[x as int],
{
    let e = eq_evals(bits(x, n));
    lemma_eq_evals_len(bits(x, n));
    assert forall|i: int| 0 <= i < e.len() implies #[trigger] e[i] == if i == x {
        sone()
    } else {
        szero()
    } by {
        lemma_eq_at_vertex(x, n, i);
    }
    dot_indicator(e, z, x as int);
}

/// Only the last digits of a number pick a vertex.
pub proof fn law_digits_wrap(x: nat, n: nat)
    ensures
        bits(pow2(n) + x, n) == bits(x, n),
{
    assert forall|j: int| 0 <= j < n implies bits(pow2(n) + x, n)[j] == bits(x, n)[j] by {
        let k = (n - 1 - j) as nat;
        let m = (j + 1) as nat;
        vstd::arithmetic::power2::lemma_pow2_adds(m, k);
        assert(m + k == n);
        lemma_pow2_pos(k);
        lemma_pow2_unfold(m);
        let (p, half) = (pow2(k) as int, pow2((m - 1) as nat) as int);
        assert((pow2(m) * p + x) / p == pow2(m) + x as int / p) by {
            vstd::arithmetic::div_mod::lemma_div_multiples_vanish_fancy(
                pow2(m) as int + x as int / p,
                x as int % p,
                p,
            );
            vstd::arithmetic::div_mod::lemma_fundamental_div_mod(x as int, p);
            assert(p * (pow2(m) as int + x as int / p) + x as int % p == pow2(m) * p + x)
                by (nonlinear_arith)
                requires
                    x as int == p * (x as int / p) + x as int % p,
            ;
        }
        assert((2 * half + x as int / p) % 2 == (x as int / p) % 2);
    }
    assert(bits(pow2(n) + x, n) =~= bits(x, n));
}

/// The vertex with the last coordinates at one is the one whose number has
/// these digits.
pub proof fn lemma_corner(n: nat)
    ensures
        repeated(szero(), n) == bits(0, n),
        n >= 1 ==> corner(n, 1) == bits(1, n),
        n >= 2 ==> corner(n, 2) == bits(3, n),
{
    vstd::arithmetic::power2::lemma2_to64();
    assert forall|j: int| 0 <= j < n implies bits(0, n)[j] == szero() by {
        lemma_pow2_pos((n - 1 - j) as nat);
        assert(0int / pow2((n - 1 - j) as nat) as int == 0) by {
            vstd::arithmetic::div_mod::lemma_div_of0(pow2((n - 1 - j) as nat) as int);
        }
    }
    assert(repeated(szero(), n) =~= bits(0, n));
    if n >= 1 {
        assert forall|j: int| 0 <= j < n implies bits(1, n)[j] == corner(n, 1)[j] by {
            lemma_small_digit(1, (n - 1 - j) as nat);
        }
        assert(corner(n, 1) =~= bits(1, n));
    }
    if n >= 2 {
        assert forall|j: int| 0 <= j < n implies bits(3, n)[j] == corner(n, 2)[j] by {
            lemma_small_digit(3, (n - 1 - j) as nat);
        }
        assert(corner(n, 2) =~= bits(3, n));
    }
}

proof fn lemma_small_digit(x: nat, k: nat)
    requires
        x == 1 || x == 3,
    ensures
        k == 0 ==> (x / pow2(k)) % 2 == 1,
        k == 1 ==> (x / pow2(k)) % 2 == if x == 3 {
            1nat
        } else {
            0nat
        },
        k >= 2 ==> (x / pow2(k)) % 2 == 0,
{
    vstd::arithmetic::power2::lemma2_to64();
    if k == 0 {
        assert(pow2(k) == 1);
        assert(x / 1 == x);
    } else if k == 1 {
        assert(pow2(k) == 2);
        assert(x / 2 == if x == 3 { 1nat } else { 0nat });
    } else {
        if k > 2 {
            vstd::arithmetic::power2::lemma_pow2_strictly_increases(2, k);
        }
        vstd::arithmetic::div_mod::lemma_basic_div(x as int, pow2(k) as int);
    }
}

/// The weights of a point in two parts are the products of the weights of the
/// parts.
pub proof fn lemma_eq_factors(rl: Seq<Scalar>, rr: Seq<Scalar>, i: int, j: int)
    requires
        0 <= i < pow2(rl.len()),
        0 <= j < pow2(rr.len()),
    ensures
        eq_evals(rl + rr).len() == pow2(rl.len()) * pow2(rr.len()),
        0 <= i * pow2(rr.len()) + j < pow2(rl.len()) * pow2(rr.len()),
        eq_evals(rl + rr)[i * pow2(rr.len()) + j] == smul(eq_evals(rl)[i], eq_evals(rr)[j]),
    decreases rr.len(),
{
    let w = pow2(rr.len());
    let r = rl + rr;
    vstd::arithmetic::power2::lemma_pow2_adds(rl.len(), rr.len());
    lemma_eq_evals_len(r);
    lemma_eq_evals_len(rl);
    lemma_eq_evals_len(rr);
    assert(0 <= i * w + j < pow2(rl.len()) * w) by (nonlinear_arith)
        requires
            0 <= i < pow2(rl.len()),
            0 <= j < w,
    ;
    if rr.len() == 0 {
        vstd::arithmetic::power2::lemma2_to64();
        assert(r =~= rl);
        assert(i * w + j == i);
        lemma_eq_canonical(rl, i);
        lemma_constants();
        neutral(eq_evals(rl)[i]);
    } else {
        let h = pow2((rr.len() - 1) as nat);
        lemma_pow2_unfold(rr.len());
        assert(r.drop_last() =~= rl + rr.drop_last());
        assert(r.last() == rr.last());
        lemma_eq_factors(rl, rr.drop_last(), i, j / 2);
        let k = i * w + j;
        assert(i * w == 2 * (i * h)) by (nonlinear_arith)
            requires
                w == 2 * h,
        ;
        assert(k / 2 == i * h + j / 2 && k % 2 == j % 2);
        lemma_eq_evals_len(r.drop_last());
        lemma_eq_evals_len(rr.drop_last());
        let (a, b, c) = (eq_evals(rl)[i], eq_evals(rr.drop_last())[j / 2], rr.last());
        assert(eq_evals(r.drop_last())[k / 2] == smul(a, b));
        mul_assoc(a, b, c);
        lemma_eq_canonical(rr.drop_last(), j / 2);
        canonical_ops(b, c);
        distrib_sub(a, b, smul(b, c));
    }
}

/// Weights are reduced scalars.
pub proof fn lemma_eq_canonical(r: Seq<Scalar>, i: int)
    requires
        0 <= i < pow2(r.len()),
    ensures
        eq_evals(r)[i].canonical(),
    decreases r.len(),
{
    lemma_eq_evals_len(r);
    lemma_constants();
    vstd::arithmetic::power2::lemma2_to64();
    if r.len() > 0 {
        lemma_pow2_unfold(r.len());
        lemma_eq_evals_len(r.drop_last());
        lemma_eq_canonical(r.drop_last(), i / 2);
        let t = eq_evals(r.drop_last())[i / 2];
        canonical_ops(t, r.last());
        canonical_ops(t, smul(t, r.last()));
    }
}

/// The value at a point is the combination, by the weights of the columns, of
/// the columns that the weights of the rows leave.
pub proof fn law_value_by_rows(z: Seq<Scalar>, rl: Seq<Scalar>, rr: Seq<Scalar>)
    requires
        z.len() == pow2(rl.len() + rr.len()),
    ensures
        evaluation(z, rl + rr) == dot(
            combined_rows(z, eq_evals(rl), pow2(rr.len())),
            eq_evals(rr),
        ),
{
    let (l, r) = (eq_evals(rl), eq_evals(rr));
    let w = pow2(rr.len());
    lemma_eq_evals_len(rl);
    lemma_eq_evals_len(rr);
    lemma_eq_evals_len(rl + rr);
    vstd::arithmetic::power2::lemma_pow2_adds(rl.len(), rr.len());
    lemma_pow2_pos(rr.len());
    let m = |i: int, j: int| z[i * w + j];
    sum_exchange(l, r, m);
    // by rows: the weights of all vertices are products
    lemma_by_rows(z, rl, rr, l.len());
    let e = eq_evals(rl + rr);
    assert(pointwise(e, z).take((l.len() * w) as int) =~= pointwise(e, z));
    assert forall|i: int| 0 <= i < l.len() implies #[trigger] row_sums(l.len(), r, m)[i] == dot(
        r,
        row_of(z, w, i),
    ) by {
        assert(Seq::new(r.len(), |j: int| m(i, j)) =~= row_of(z, w, i));
    }
    assert(row_sums(l.len(), r, m) =~= Seq::new(l.len(), |i: int| dot(r, row_of(z, w, i))));
    assert(l.take(l.len() as int) =~= l);
    // by columns
    let cs = column_sums(l, r.len(), m);
    let cr = combined_rows(z, l, w);
    assert forall|j: int| 0 <= j < w implies cs[j] == cr[j] by {
        assert(Seq::new(l.len(), |i: int| m(i, j)) =~= column(z, w as int, l.len(), j));
    }
    assert(cs =~= cr);
    dot_comm(r, cr);
}

/// The row `i` of values in rows of `w`.
pub open spec fn row_of(z: Seq<Scalar>, w: nat, i: int) -> Seq<Scalar> {
    Seq::new(w, |j: int| z[i * w + j])
}

/// The weighted sum over the first `k` rows.
proof fn lemma_by_rows(z: Seq<Scalar>, rl: Seq<Scalar>, rr: Seq<Scalar>, k: nat)
    requires
        z.len() == pow2(rl.len()) * pow2(rr.len()),
        k <= pow2(rl.len()),
    ensures
        sum(pointwise(eq_evals(rl + rr), z).take((k * pow2(rr.len())) as int)) == dot(
            eq_evals(rl).take(k as int),
            Seq::new(k, |i: int| dot(eq_evals(rr), row_of(z, pow2(rr.len()), i))),
        ),
    decreases k,
{
    let w = pow2(rr.len());
    let (l, r) = (eq_evals(rl), eq_evals(rr));
    let e = eq_evals(rl + rr);
    lemma_eq_evals_len(rl);
    lemma_eq_evals_len(rr);
    lemma_eq_evals_len(rl + rr);
    vstd::arithmetic::power2::lemma_pow2_adds(rl.len(), rr.len());
    let all = pointwise(e, z);
    let tail = Seq::new(k, |i: int| dot(r, row_of(z, w, i)));
    if k == 0 {
        assert(k * w == 0) by (nonlinear_arith)
            requires
                k == 0,
        ;
        assert(all.take(0) =~= Seq::<Scalar>::empty());
        assert(pointwise(l.take(0), tail) =~= Seq::<Scalar>::empty());
    } else {
        let q = (k - 1) as nat;
        lemma_by_rows(z, rl, rr, q);
        assert(k * w == q * w + w && k * w <= pow2(rl.len()) * w) by (nonlinear_arith)
            requires
                k == q + 1,
                k <= pow2(rl.len()),
        ;
        let front = all.take((q * w) as int);
        let line = crate::sums::scaled_list(l[q as int], pointwise(r, row_of(z, w, q as int)));
        assert forall|j: int| 0 <= j < w implies all[q * w + j] == #[trigger] line[j] by {
            lemma_eq_factors(rl, rr, q as int, j);
            mul_assoc(l[q as int], r[j], z[q * w + j]);
        }
        assert(all.take((k * w) as int) =~= front + line);
        crate::sums::sum_concat(front, line);
        crate::sums::sum_scaled(l[q as int], pointwise(r, row_of(z, w, q as int)));
        let tail0 = Seq::new(q, |i: int| dot(r, row_of(z, w, i)));
        assert(tail =~= tail0.push(dot(r, row_of(z, w, q as int))));
        assert(l.take(k as int) =~= l.take(q as int).push(l[q as int]));
        crate::sums::dot_push(
            l.take(q as int),
            l[q as int],
            tail0,
            dot(r, row_of(z, w, q as int)),
        );
    }
}

/// The value at a point in two parts is that, at the first part, of the values
/// of the rows at the second part.
pub proof fn law_value_of_rows(z: Seq<Scalar>, rl: Seq<Scalar>, rr: Seq<Scalar>)
    requires
        z.len() == pow2(rl.len()) * pow2(rr.len()),
    ensures
        evaluation(z, rl + rr) == evaluation(
            Seq::new(pow2(rl.len()), |i: int| evaluation(row_of(z, pow2(rr.len()), i), rr)),
            rl,
        ),
{
    let k = pow2(rl.len());
    lemma_eq_evals_len(rl);
    lemma_eq_evals_len(rr);
    lemma_eq_evals_len(rl + rr);
    vstd::arithmetic::power2::lemma_pow2_adds(rl.len(), rr.len());
    lemma_by_rows(z, rl, rr, k);
    let all = pointwise(eq_evals(rl + rr), z);
    assert(all.take((k * pow2(rr.len())) as int) =~= all);
    assert(eq_evals(rl).take(k as int) =~= eq_evals(rl));
    assert(Seq::new(k, |i: int| dot(eq_evals(rr), row_of(z, pow2(rr.len()), i))) =~= Seq::new(
        k,
        |i: int| evaluation(row_of(z, pow2(rr.len()), i), rr),
    ));
}

/// The value at a point is that of the polynomial with the first coordinate
/// set, at the other coordinates.
pub proof fn law_value_by_binding(z: Seq<Scalar>, r: Seq<Scalar>)
    requires
        r.len() > 0,
        z.len() == pow2(r.len()),
        all_canonical(z),
        r[0].canonical(),
    ensures
        evaluation(z, r) == evaluation(bound_top(z, r[0]), r.skip(1)),
{
    let (x, rr) = (r[0], r.skip(1));
    let rl = seq![x];
    assert(rl + rr =~= r);
    law_value_by_rows(z, rl, rr);
    let w = pow2(rr.len());
    lemma_pow2_unfold(r.len());
    let l = eq_evals(rl);
    let c = combined_rows(z, l, w);
    let b = bound_top(z, x);
    lemma_constants();
    lemma_one_weight(x);
    assert forall|j: int| 0 <= j < w implies c[j] == b[j] by {
        assert(z[j].canonical() && z[j + w].canonical());
        let col = column(z, w as int, l.len(), j);
        assert(0 * w + j == j && 1 * w + j == j + w);
        assert(col =~= seq![z[j], z[j + w]]);
        lemma_bound_entry(x, z[j], z[j + w]);
    }
    assert(c =~= b);
    lemma_eq_evals_len(rr);
    dot_comm(c, eq_evals(rr));
}

/// The weights of one coordinate.
pub proof fn lemma_one_weight(x: Scalar)
    requires
        x.canonical(),
    ensures
        eq_evals(seq![x]) == seq![ssub(sone(), x), x],
{
    let rl = seq![x];
    lemma_constants();
    neutral(x);
    reveal_with_fuel(eq_evals, 2);
    assert(rl.drop_last() =~= Seq::<Scalar>::empty());
    assert(eq_evals(rl) =~= seq![ssub(sone(), x), x]);
}

/// The inner product of two pairs.
pub proof fn lemma_dot_two(a: Scalar, b: Scalar, c: Scalar, d: Scalar)
    ensures
        dot(seq![a, b], seq![c, d]) == sadd(smul(a, c), smul(b, d)),
{
    let e = Seq::<Scalar>::empty();
    assert(seq![a, b] =~= e.push(a).push(b));
    assert(seq![c, d] =~= e.push(c).push(d));
    crate::sums::dot_push(e, a, e, c);
    crate::sums::dot_push(e.push(a), b, e.push(c), d);
    assert(pointwise(e, e) =~= e);
    canonical_ops(a, c);
    neutral(smul(a, c));
}

pub proof fn lemma_bound_entry(x: Scalar, lo: Scalar, hi: Scalar)
    requires
        x.canonical(),
        lo.canonical(),
        hi.canonical(),
    ensures
        dot(seq![ssub(sone(), x), x], seq![lo, hi]) == sadd(lo, smul(x, ssub(hi, lo))),
{
    lemma_dot_two(ssub(sone(), x), x, lo, hi);
    lemma_constants();
    canonical_ops(x, hi);
    canonical_ops(x, lo);
    distrib_sub(lo, sone(), x);
    neutral(lo);
    mul_comm(x, lo);
    distrib_sub(x, hi, lo);
    lemma_mix(lo, smul(x, lo), smul(x, hi));
}

/// `(a - b) + c == a + (c - b)`.
pub proof fn lemma_mix(a: Scalar, b: Scalar, c: Scalar)
    requires
        a.canonical(),
        b.canonical(),
        c.canonical(),
    ensures
        sadd(ssub(a, b), c) == sadd(a, ssub(c, b)),
{
    let (x, y) = (ssub(a, b), ssub(c, b));
    canonical_ops(a, b);
    canonical_ops(c, b);
    canonical_ops(x, c);
    canonical_ops(a, y);
    // both give a + c when b is added
    sub_add(a, b);
    sub_add(c, b);
    add_assoc(x, c, b);
    add_comm(c, b);
    add_assoc(x, b, c);
    add_assoc(a, y, b);
    crate::field::add_sub_cancel(sadd(x, c), sadd(a, y), b);
}

} // verus!
