//! What the rounds of a sum-check keep.
use crate::commitments::{commitment, Gens};
use crate::dense_mlpoly::bound_top;
use crate::field::{canonical_ops, neutral};
use crate::opening_laws::lemma_canonical_challenge;
use crate::scalar::{
    is_inverse, lemma_constants, lemma_of_view, lemma_sadd_view, lemma_scalar_injective,
    lemma_sinv, lemma_smul_view, lemma_ssub_view, order, sadd, smul, sone, ssub, szero,
    Scalar,
};
use crate::sumcheck::{
    all_long, chain, column_at, first_round, leftovers, on_line, one_round, round_evals,
    round_weights, sumcheck_prove, sumcheck_rounds, table_sum, Comb, Rounds,
};
use crate::sums::{added, all_canonical, dot_added, dot_scaled, scaled_list};
use crate::transcript::{challenges, said, History};
use crate::unipoly::{
    cubic_lead, cubic_second, horner_up, interpolated, inverse_of, quadratic_lead, thrice,
    uni_value,
};
use crate::vectors::{dot, pointwise, sum};
use vstd::arithmetic::div_mod::{
    lemma_add_mod_noop, lemma_mod_multiples_vanish, lemma_mul_mod_noop, lemma_small_mod,
    lemma_sub_mod_noop,
};
use vstd::arithmetic::power2::{lemma_pow2_unfold, pow2};
use vstd::prelude::*;

verus! {

/// Whether a scalar is the remainder of an integer.
pub open spec fn stands_for(a: Scalar, x: int) -> bool {
    a@ == x % (order() as int)
}

/// A reduced scalar stands for its integer.
pub proof fn stands_itself(a: Scalar)
    requires
        a.canonical(),
    ensures
        stands_for(a, a@ as int),
{
    lemma_small_mod(a@, order());
}

/// Two scalars that stand for one integer are the same.
pub proof fn stands_same(a: Scalar, b: Scalar, x: int)
    requires
        stands_for(a, x),
        stands_for(b, x),
    ensures
        a == b,
{
    lemma_scalar_injective(a, b);
}

/// A sum stands for the sum.
pub proof fn stands_add(a: Scalar, x: int, b: Scalar, y: int)
    requires
        stands_for(a, x),
        stands_for(b, y),
    ensures
        stands_for(sadd(a, b), x + y),
{
    lemma_sadd_view(a, b);
    lemma_add_mod_noop(x, y, order() as int);
}

/// A difference stands for the difference.
pub proof fn stands_sub(a: Scalar, x: int, b: Scalar, y: int)
    requires
        stands_for(a, x),
        stands_for(b, y),
    ensures
        stands_for(ssub(a, b), x - y),
{
    vstd::arithmetic::div_mod::lemma_mod_bound(y, order() as int);
    lemma_ssub_view(a, b);
    lemma_sub_mod_noop(x, y, order() as int);
}

/// A product stands for the product.
pub proof fn stands_mul(a: Scalar, x: int, b: Scalar, y: int)
    requires
        stands_for(a, x),
        stands_for(b, y),
    ensures
        stands_for(smul(a, b), x * y),
{
    lemma_smul_view(a, b);
    lemma_mul_mod_noop(x, y, order() as int);
}

/// Two and six have inverses.
proof fn lemma_small_inverses()
    ensures
        stands_for(smul(inverse_of(2), Scalar::of(2)), 1),
        stands_for(smul(inverse_of(6), Scalar::of(6)), 1),
        inverse_of(2).canonical(),
        inverse_of(6).canonical(),
{
    lemma_of_view(2);
    lemma_of_view(6);
    let two = 3618502788666131106986593281521497120428558179689953803000975469142727125495nat;
    let six = 6030837981110218511644322135869161867380930299483256338334959115237878542491nat;
    lemma_of_view(two);
    lemma_of_view(six);
    assert(2 * two == 1 + order());
    assert(6 * six == 1 + 5 * order());
    lemma_mod_multiples_vanish(1, 1, order() as int);
    lemma_mod_multiples_vanish(5, 1, order() as int);
    lemma_small_mod(1, order());
    assert(is_inverse(Scalar::of(2), Scalar::of(two)));
    assert(is_inverse(Scalar::of(6), Scalar::of(six)));
    lemma_sinv(Scalar::of(2));
    lemma_sinv(Scalar::of(6));
    crate::field::mul_comm(Scalar::of(2), inverse_of(2));
    crate::field::mul_comm(Scalar::of(6), inverse_of(6));
    lemma_smul_view(Scalar::of(2), inverse_of(2));
    lemma_smul_view(Scalar::of(6), inverse_of(6));
}

/// To multiply by the inverse of a number is to divide by it.
proof fn lemma_divided(n: nat, inv: Scalar, d: Scalar, c: int)
    requires
        0 < n < order(),
        inv.canonical(),
        stands_for(smul(inv, Scalar::of(n)), 1),
        stands_for(d, n * c),
    ensures
        stands_for(smul(inv, d), c),
{
    let q = order() as int;
    let x = inv@ as int;
    lemma_of_view(n);
    stands_itself(inv);
    stands_itself(Scalar::of(n));
    stands_mul(inv, x, Scalar::of(n), n as int);
    stands_mul(inv, x, d, n * c);
    assert(x * (n * c) == (x * n) * c) by (nonlinear_arith);
    lemma_mul_mod_noop(x * n, c, q);
    lemma_mul_mod_noop(1, c, q);
}

/// The value of a polynomial of degree three with integer coefficients.
pub open spec fn cubic(c: (int, int, int, int), x: int) -> int {
    c.0 + c.1 * x + c.2 * (x * x) + c.3 * (x * x * x)
}

/// Whether values stand for those of a polynomial at 0, 1, 2 and, where there
/// are four, 3.
pub open spec fn values_of(e: Seq<Scalar>, c: (int, int, int, int)) -> bool {
    &&& e.len() == 4 || (e.len() == 3 && c.3 == 0)
    &&& forall|i: int| 0 <= i < e.len() ==> stands_for(#[trigger] e[i], cubic(c, i))
}

proof fn lemma_thrice(a: Scalar, x: int)
    requires
        stands_for(a, x),
    ensures
        stands_for(thrice(a), 3 * x),
{
    stands_add(a, x, a, x);
    stands_add(sadd(a, a), x + x, a, x);
}

proof fn lemma_cubic_values(c: (int, int, int, int))
    ensures
        cubic(c, 0) == c.0,
        cubic(c, 1) == c.0 + c.1 + c.2 + c.3,
        cubic(c, 2) == c.0 + 2 * c.1 + 4 * c.2 + 8 * c.3,
        cubic(c, 3) == c.0 + 3 * c.1 + 9 * c.2 + 27 * c.3,
{
    assert(c.1 * 0 == 0 && c.2 * 0 == 0 && c.3 * 0 == 0) by (nonlinear_arith);
    assert(c.1 * 1 == c.1 && c.2 * 1 == c.2 && c.3 * 1 == c.3) by (nonlinear_arith);
    assert(0int * 0 == 0 && 0int * 0 * 0 == 0);
    assert(1int * 1 == 1 && 1int * 1 * 1 == 1);
    assert(2int * 2 == 4 && 2int * 2 * 2 == 8);
    assert(3int * 3 == 9 && 3int * 3 * 3 == 27);
}

/// Interpolation gives back the polynomial whose values it is given.
pub proof fn law_interpolation(e: Seq<Scalar>, c: (int, int, int, int))
    requires
        values_of(e, c),
    ensures
        stands_for(interpolated(e)[0], c.0),
        stands_for(interpolated(e)[1], c.1),
        stands_for(interpolated(e)[2], c.2),
        e.len() == 4 ==> stands_for(interpolated(e)[3], c.3),
{
    lemma_cubic_values(c);
    lemma_small_inverses();
    let (v0, v1, v2, v3) = (cubic(c, 0), cubic(c, 1), cubic(c, 2), cubic(c, 3));
    let (e0, e1, e2) = (e[0], e[1], e[2]);
    stands_sub(e1, v1, e0, v0);
    if e.len() == 3 {
        stands_sub(e2, v2, e1, v1);
        stands_sub(ssub(e2, e1), v2 - v1, e1, v1);
        stands_add(ssub(ssub(e2, e1), e1), v2 - v1 - v1, e0, v0);
        lemma_divided(2, inverse_of(2), sadd(ssub(ssub(e2, e1), e1), e0), c.2);
        stands_sub(ssub(e1, e0), v1 - v0, quadratic_lead(e), c.2);
    } else {
        let e3 = e[3];
        lemma_thrice(e1, v1);
        lemma_thrice(e2, v2);
        let d1 = ssub(e3, thrice(e2));
        stands_sub(e3, v3, thrice(e2), 3 * v2);
        let d2 = sadd(d1, thrice(e1));
        stands_add(d1, v3 - 3 * v2, thrice(e1), 3 * v1);
        stands_sub(d2, v3 - 3 * v2 + 3 * v1, e0, v0);
        lemma_divided(6, inverse_of(6), ssub(d2, e0), c.3);
        stands_add(e0, v0, e0, v0);
        stands_add(e1, v1, e1, v1);
        let f1 = sadd(thrice(e1), sadd(e1, e1));
        stands_add(thrice(e1), 3 * v1, sadd(e1, e1), v1 + v1);
        let f2 = sadd(thrice(e2), e2);
        stands_add(thrice(e2), 3 * v2, e2, v2);
        let f3 = ssub(sadd(e0, e0), f1);
        stands_sub(sadd(e0, e0), v0 + v0, f1, 3 * v1 + (v1 + v1));
        let f4 = sadd(f3, f2);
        stands_add(f3, v0 + v0 - (3 * v1 + (v1 + v1)), f2, 3 * v2 + v2);
        stands_sub(f4, v0 + v0 - (3 * v1 + (v1 + v1)) + (3 * v2 + v2), e3, v3);
        lemma_divided(2, inverse_of(2), ssub(f4, e3), c.2);
        let g = ssub(ssub(e1, e0), cubic_lead(e));
        stands_sub(ssub(e1, e0), v1 - v0, cubic_lead(e), c.3);
        stands_sub(g, v1 - v0 - c.3, cubic_second(e), c.2);
    }
}

/// The value of the interpolated polynomial is that of the polynomial whose
/// values were given.
pub proof fn law_interpolated_value(e: Seq<Scalar>, c: (int, int, int, int), r: Scalar)
    requires
        values_of(e, c),
        r.canonical(),
    ensures
        stands_for(uni_value(interpolated(e), r), cubic(c, r@ as int)),
{
    law_interpolation(e, c);
    let x = r@ as int;
    let z = seq![c.0, c.1, c.2, c.3];
    lemma_uni_stands(interpolated(e), z, r);
    assert(c.0 * 1 == c.0) by (nonlinear_arith);
    if e.len() == 3 {
        assert(c.3 * (x * x * x) == 0) by (nonlinear_arith)
            requires
                c.3 == 0,
        ;
    }
}

/// The value at `x` of the line with the given values at 0 and 1.
pub open spec fn line(lo: int, hi: int, x: int) -> int {
    lo + (hi - lo) * x
}

/// The combination of integers.
pub open spec fn comb_int(comb: Comb, v: Seq<int>) -> int {
    match comb {
        Comb::Quad => v[0] * v[1],
        Comb::Cubic => v[0] * v[1] * v[2],
        Comb::Additive => v[0] * (v[1] * v[2] - v[3]),
    }
}

/// The values of all polynomials with the first coordinate at `x` and the
/// others at the vertex `i`.
pub open spec fn lines_at(tables: Seq<Seq<Scalar>>, i: int, x: int) -> Seq<int> {
    tables.map_values(
        |t: Seq<Scalar>| line(t[i]@ as int, t[(t.len() / 2) as int + i]@ as int, x),
    )
}

/// The sum of the combinations at `x` over the first `k` vertices of the other
/// coordinates.
pub open spec fn line_sum(tables: Seq<Seq<Scalar>>, comb: Comb, x: int, k: nat) -> int
    decreases k,
{
    if k == 0 {
        0
    } else {
        line_sum(tables, comb, x, (k - 1) as nat) + comb_int(comb, lines_at(tables, k - 1, x))
    }
}

/// The values of all polynomials at a vertex.
pub open spec fn vertex_column(tables: Seq<Seq<Scalar>>, i: int) -> Seq<Scalar> {
    tables.map_values(|t: Seq<Scalar>| t[i])
}

/// The sum of the combinations over the first `k` vertices.
pub open spec fn vertex_sum(tables: Seq<Seq<Scalar>>, comb: Comb, k: nat) -> Scalar
    decreases k,
{
    if k == 0 {
        szero()
    } else {
        sadd(
            vertex_sum(tables, comb, (k - 1) as nat),
            comb.apply(vertex_column(tables, k - 1)),
        )
    }
}

/// Tables as many as a combination takes, of one length, with reduced values.
pub open spec fn tables_ok(tables: Seq<Seq<Scalar>>, comb: Comb, len: nat) -> bool {
    &&& tables.len() == comb.arity()
    &&& all_long(tables, len)
    &&& forall|m: int| 0 <= m < tables.len() ==> all_canonical(#[trigger] tables[m])
}

proof fn lemma_apply_stands(comb: Comb, v: Seq<Scalar>, w: Seq<int>)
    requires
        v.len() == comb.arity(),
        forall|m: int| 0 <= m < comb.arity() ==> stands_for(#[trigger] v[m], w[m]),
    ensures
        stands_for(comb.apply(v), comb_int(comb, w)),
{
    assert(stands_for(v[0], w[0]) && stands_for(v[1], w[1]));
    match comb {
        Comb::Quad => {
            stands_mul(v[0], w[0], v[1], w[1]);
        },
        Comb::Cubic => {
            assert(stands_for(v[2], w[2]));
            stands_mul(v[0], w[0], v[1], w[1]);
            stands_mul(smul(v[0], v[1]), w[0] * w[1], v[2], w[2]);
        },
        Comb::Additive => {
            assert(stands_for(v[2], w[2]) && stands_for(v[3], w[3]));
            stands_mul(v[1], w[1], v[2], w[2]);
            stands_sub(smul(v[1], v[2]), w[1] * w[2], v[3], w[3]);
            stands_mul(v[0], w[0], ssub(smul(v[1], v[2]), v[3]), w[1] * w[2] - w[3]);
        },
    }
}

proof fn lemma_on_line(lo: Scalar, hi: Scalar, at: nat)
    requires
        lo.canonical(),
        hi.canonical(),
        at == 0 || at == 2 || at == 3,
    ensures
        stands_for(on_line(lo, hi, at), line(lo@ as int, hi@ as int, at as int)),
{
    let (x, y) = (lo@ as int, hi@ as int);
    stands_itself(lo);
    stands_itself(hi);
    stands_add(hi, y, hi, y);
    stands_sub(sadd(hi, hi), y + y, lo, x);
    let d = ssub(sadd(hi, hi), lo);
    stands_add(d, y + y - x, hi, y);
    stands_sub(sadd(d, hi), y + y - x + y, lo, x);
    assert((y - x) * 0 == 0 && (y - x) * 2 == y - x + (y - x) && (y - x) * 3 == y - x + (y - x) + (y
        - x)) by (nonlinear_arith);
}

proof fn lemma_table_sum(tables: Seq<Seq<Scalar>>, comb: Comb, at: nat, n: nat, k: nat)
    requires
        tables_ok(tables, comb, 2 * n),
        at == 0 || at == 2 || at == 3,
        k <= n,
    ensures
        stands_for(table_sum(tables, comb, at, k), line_sum(tables, comb, at as int, k)),
    decreases k,
{
    lemma_constants();
    if k > 0 {
        let p = (k - 1) as nat;
        lemma_table_sum(tables, comb, at, n, p);
        let v = column_at(tables, p as int, at);
        let w = lines_at(tables, p as int, at as int);
        assert forall|m: int| 0 <= m < comb.arity() implies stands_for(#[trigger] v[m], w[m]) by {
            let t = tables[m];
            assert(t.len() == 2 * n && all_canonical(t));
            lemma_on_line(t[p as int], t[(n + p) as int], at);
        }
        lemma_apply_stands(comb, v, w);
        stands_add(
            table_sum(tables, comb, at, p),
            line_sum(tables, comb, at as int, p),
            comb.apply(v),
            comb_int(comb, w),
        );
    } else {
        lemma_small_mod(0, order());
    }
}

/// The sum over all vertices is that over those with first coordinate 0 and
/// those with first coordinate 1.
proof fn lemma_vertex_sum(tables: Seq<Seq<Scalar>>, comb: Comb, n: nat, k: nat)
    requires
        tables_ok(tables, comb, 2 * n),
        k <= 2 * n,
    ensures
        k <= n ==> stands_for(vertex_sum(tables, comb, k), line_sum(tables, comb, 0, k)),
        k >= n ==> stands_for(
            vertex_sum(tables, comb, k),
            line_sum(tables, comb, 0, n) + line_sum(tables, comb, 1, (k - n) as nat),
        ),
    decreases k,
{
    lemma_constants();
    if k > 0 {
        let p = (k - 1) as nat;
        lemma_vertex_sum(tables, comb, n, p);
        let v = vertex_column(tables, p as int);
        let (x, i) = if p < n {
            (0int, p as int)
        } else {
            (1int, p - n)
        };
        let w = lines_at(tables, i, x);
        assert forall|m: int| 0 <= m < comb.arity() implies stands_for(#[trigger] v[m], w[m]) by {
            let t = tables[m];
            assert(t.len() == 2 * n && all_canonical(t));
            stands_itself(t[p as int]);
            let (a, b) = (t[i]@ as int, t[n + i]@ as int);
            assert((b - a) * 0 == 0 && (b - a) * 1 == b - a) by (nonlinear_arith);
        }
        lemma_apply_stands(comb, v, w);
        let before = if p < n {
            line_sum(tables, comb, 0, p)
        } else {
            line_sum(tables, comb, 0, n) + line_sum(tables, comb, 1, (p - n) as nat)
        };
        stands_add(vertex_sum(tables, comb, p), before, comb.apply(v), comb_int(comb, w));
    } else {
        lemma_small_mod(0, order());
    }
}

/// The sum over the vertices of the bound tables is that at the challenge.
proof fn lemma_bound_sum(tables: Seq<Seq<Scalar>>, comb: Comb, r: Scalar, n: nat, k: nat)
    requires
        tables_ok(tables, comb, 2 * n),
        r.canonical(),
        k <= n,
    ensures
        stands_for(
            vertex_sum(tables.map_values(|t: Seq<Scalar>| bound_top(t, r)), comb, k),
            line_sum(tables, comb, r@ as int, k),
        ),
    decreases k,
{
    lemma_constants();
    let bound = tables.map_values(|t: Seq<Scalar>| bound_top(t, r));
    let x = r@ as int;
    if k > 0 {
        let p = (k - 1) as nat;
        lemma_bound_sum(tables, comb, r, n, p);
        let v = vertex_column(bound, p as int);
        let w = lines_at(tables, p as int, x);
        assert forall|m: int| 0 <= m < comb.arity() implies stands_for(#[trigger] v[m], w[m]) by {
            let t = tables[m];
            assert(t.len() == 2 * n && all_canonical(t));
            let (lo, hi) = (t[p as int], t[(n + p) as int]);
            stands_itself(lo);
            stands_itself(hi);
            stands_itself(r);
            stands_sub(hi, hi@ as int, lo, lo@ as int);
            stands_mul(r, x, ssub(hi, lo), hi@ - lo@);
            stands_add(lo, lo@ as int, smul(r, ssub(hi, lo)), x * (hi@ - lo@));
            assert(x * (hi@ - lo@) == (hi@ - lo@) * x) by (nonlinear_arith);
            assert(v[m] == bound_top(t, r)[p as int]);
        }
        lemma_apply_stands(comb, v, w);
        stands_add(
            vertex_sum(bound, comb, p),
            line_sum(tables, comb, x, p),
            comb.apply(v),
            comb_int(comb, w),
        );
    } else {
        lemma_small_mod(0, order());
    }
}

/// The product of two lines.
proof fn lemma_two_lines(a: int, b: int, c: int, d: int, x: int)
    ensures
        (a + b * x) * (c + d * x) == a * c + (a * d + b * c) * x + (b * d) * (x * x),
{
    let (u, v) = (b * x, d * x);
    assert((a + u) * (c + v) == a * c + a * v + u * c + u * v) by (nonlinear_arith);
    assert(a * (d * x) == (a * d) * x) by (nonlinear_arith);
    assert((b * x) * c == (b * c) * x) by (nonlinear_arith);
    assert((b * x) * (d * x) == (b * d) * (x * x)) by (nonlinear_arith);
    let (y, z) = (a * d, b * c);
    assert((y + z) * x == y * x + z * x) by (nonlinear_arith);
}

/// The product of a line and a polynomial of degree two.
proof fn lemma_line_times(a: int, b: int, p: int, q: int, s: int, x: int)
    ensures
        (a + b * x) * (p + q * x + s * (x * x)) == cubic(
            (a * p, a * q + b * p, a * s + b * q, b * s),
            x,
        ),
{
    let (u, v, w) = (b * x, q * x, s * (x * x));
    assert((a + u) * (p + v + w) == a * p + a * v + a * w + u * p + u * v + u * w)
        by (nonlinear_arith);
    assert(a * (q * x) == (a * q) * x) by (nonlinear_arith);
    assert(a * (s * (x * x)) == (a * s) * (x * x)) by (nonlinear_arith);
    assert((b * x) * p == (b * p) * x) by (nonlinear_arith);
    assert((b * x) * (q * x) == (b * q) * (x * x)) by (nonlinear_arith);
    let x2 = x * x;
    assert((b * x) * (s * x2) == (b * s) * (x2 * x)) by (nonlinear_arith);
    let (y1, z1, y2, z2) = (a * q, b * p, a * s, b * q);
    assert((y1 + z1) * x == y1 * x + z1 * x) by (nonlinear_arith);
    assert((y2 + z2) * x2 == y2 * x2 + z2 * x2) by (nonlinear_arith);
}

/// The combination of lines is a polynomial of degree three, or two for a
/// product of two.
proof fn lemma_comb_cubic(tables: Seq<Seq<Scalar>>, comb: Comb, i: int) -> (c: (
    int,
    int,
    int,
    int,
))
    requires
        tables.len() == comb.arity(),
    ensures
        forall|x: int| comb_int(comb, #[trigger] lines_at(tables, i, x)) == cubic(c, x),
        comb == Comb::Quad ==> c.3 == 0,
{
    let lo = tables.map_values(|t: Seq<Scalar>| t[i]@ as int);
    let slope = tables.map_values(
        |t: Seq<Scalar>| t[(t.len() / 2) as int + i]@ as int - t[i]@ as int,
    );
    let (a0, b0, a1, b1) = (lo[0], slope[0], lo[1], slope[1]);
    match comb {
        Comb::Quad => {
            let c = (a0 * a1, a0 * b1 + b0 * a1, b0 * b1, 0int);
            assert forall|x: int| comb_int(comb, #[trigger] lines_at(tables, i, x)) == cubic(
                c,
                x,
            ) by {
                lemma_two_lines(a0, b0, a1, b1, x);
                assert(0 * (x * x * x) == 0) by (nonlinear_arith);
            }
            c
        },
        Comb::Cubic => {
            let (a2, b2) = (lo[2], slope[2]);
            let (p, q, s) = (a0 * a1, a0 * b1 + b0 * a1, b0 * b1);
            let c = (a2 * p, a2 * q + b2 * p, a2 * s + b2 * q, b2 * s);
            assert forall|x: int| comb_int(comb, #[trigger] lines_at(tables, i, x)) == cubic(
                c,
                x,
            ) by {
                lemma_two_lines(a0, b0, a1, b1, x);
                lemma_line_times(a2, b2, p, q, s, x);
                let (y, z) = (p + q * x + s * (x * x), a2 + b2 * x);
                assert(y * z == z * y) by (nonlinear_arith);
            }
            c
        },
        Comb::Additive => {
            let (a2, b2, a3, b3) = (lo[2], slope[2], lo[3], slope[3]);
            let (p, q, s) = (a1 * a2 - a3, a1 * b2 + b1 * a2 - b3, b1 * b2);
            let c = (a0 * p, a0 * q + b0 * p, a0 * s + b0 * q, b0 * s);
            assert forall|x: int| comb_int(comb, #[trigger] lines_at(tables, i, x)) == cubic(
                c,
                x,
            ) by {
                lemma_two_lines(a1, b1, a2, b2, x);
                lemma_line_times(a0, b0, p, q, s, x);
                let u = a1 * b2 + b1 * a2;
                assert((u - b3) * x == u * x - b3 * x) by (nonlinear_arith);
            }
            c
        },
    }
}

/// The sum over the vertices of the other coordinates is such a polynomial in
/// the first one.
proof fn lemma_sum_cubic(tables: Seq<Seq<Scalar>>, comb: Comb, k: nat) -> (c: (int, int, int, int))
    requires
        tables.len() == comb.arity(),
    ensures
        forall|x: int| #[trigger] line_sum(tables, comb, x, k) == cubic(c, x),
        comb == Comb::Quad ==> c.3 == 0,
    decreases k,
{
    if k == 0 {
        let c = (0int, 0int, 0int, 0int);
        assert forall|x: int| #[trigger] line_sum(tables, comb, x, k) == cubic(c, x) by {
            assert(0 * x == 0 && 0 * (x * x) == 0 && 0 * (x * x * x) == 0) by (nonlinear_arith);
        }
        c
    } else {
        let p = (k - 1) as nat;
        let a = lemma_sum_cubic(tables, comb, p);
        let b = lemma_comb_cubic(tables, comb, p as int);
        let c = (a.0 + b.0, a.1 + b.1, a.2 + b.2, a.3 + b.3);
        assert forall|x: int| #[trigger] line_sum(tables, comb, x, k) == cubic(c, x) by {
            assert(line_sum(tables, comb, x, p) == cubic(a, x));
            assert(comb_int(comb, lines_at(tables, p as int, x)) == cubic(b, x));
            let (x2, x3) = (x * x, x * x * x);
            assert((a.1 + b.1) * x == a.1 * x + b.1 * x) by (nonlinear_arith);
            assert((a.2 + b.2) * x2 == a.2 * x2 + b.2 * x2) by (nonlinear_arith);
            assert((a.3 + b.3) * x3 == a.3 * x3 + b.3 * x3) by (nonlinear_arith);
        }
        c
    }
}

/// Where a claim is the sum of the combinations over all vertices, the value
/// of the polynomial of the round at a challenge is the sum over the vertices
/// of the tables bound to the challenge.
pub proof fn law_round_keeps_claim(
    tables: Seq<Seq<Scalar>>,
    comb: Comb,
    claim: Scalar,
    r: Scalar,
    n: nat,
)
    requires
        tables_ok(tables, comb, 2 * n),
        claim == vertex_sum(tables, comb, 2 * n),
        r.canonical(),
    ensures
        uni_value(interpolated(round_evals(tables, comb, claim)), r) == vertex_sum(
            tables.map_values(|t: Seq<Scalar>| bound_top(t, r)),
            comb,
            n,
        ),
{
    let e = round_evals(tables, comb, claim);
    let c = lemma_sum_cubic(tables, comb, n);
    lemma_table_sum(tables, comb, 0, n, n);
    lemma_table_sum(tables, comb, 2, n, n);
    lemma_vertex_sum(tables, comb, n, 2 * n);
    let (y0, y1) = (line_sum(tables, comb, 0, n), line_sum(tables, comb, 1, n));
    stands_sub(claim, y0 + y1, e[0], y0);
    assert(tables[0].len() == 2 * n);
    assert(e[1] == ssub(claim, e[0]));
    if comb != Comb::Quad {
        lemma_table_sum(tables, comb, 3, n, n);
    }
    assert(values_of(e, c)) by {
        assert forall|i: int| 0 <= i < e.len() implies stands_for(
            #[trigger] e[i],
            cubic(c, i),
        ) by {
            assert(line_sum(tables, comb, i, n) == cubic(c, i));
        }
    }
    law_interpolated_value(e, c, r);
    lemma_bound_sum(tables, comb, r, n, n);
    let x = r@ as int;
    assert(line_sum(tables, comb, x, n) == cubic(c, x));
    stands_same(
        uni_value(interpolated(e), r),
        vertex_sum(tables.map_values(|t: Seq<Scalar>| bound_top(t, r)), comb, n),
        cubic(c, x),
    );
}

/// The challenge of a round, and the claim that it leaves.
pub proof fn lemma_round_challenge(
    s: Rounds,
    evals: Seq<Scalar>,
    blind_poly: Scalar,
    blind_eval: Scalar,
    g1: Gens,
    gn: Gens,
)
    ensures
        ({
            let out = one_round(s, evals, blind_poly, blind_eval, g1, gn);
            &&& out.r == s.r.push(out.r.last())
            &&& out.r.last().canonical()
            &&& out.claim == uni_value(interpolated(evals), out.r.last())
            &&& out.comm_claim == commitment(seq![out.claim], out.blind, g1)
        }),
{
    reveal(one_round);
    let h1 = said(
        s.th,
        "comm_poly"@,
        commitment(interpolated(evals), blind_poly, gn).encoding(),
    );
    lemma_canonical_challenge(h1, "challenge_nextround"@);
}

/// A sum-check that starts at a true claim is at a true claim after each round:
/// the claim is the sum of the combinations over the vertices that are left.
pub proof fn law_sumcheck_keeps_claim(
    s: Rounds,
    tables: Seq<Seq<Scalar>>,
    comb: Comb,
    bp: Seq<Scalar>,
    be: Seq<Scalar>,
    g1: Gens,
    gn: Gens,
    n: nat,
    k: nat,
)
    requires
        tables_ok(tables, comb, pow2(n)),
        s.claim == vertex_sum(tables, comb, pow2(n)),
        k <= n,
    ensures
        ({
            let (out, ts) = sumcheck_rounds(s, tables, comb, bp, be, g1, gn, k);
            &&& tables_ok(ts, comb, pow2((n - k) as nat))
            &&& out.claim == vertex_sum(ts, comb, pow2((n - k) as nat))
        }),
    decreases k,
{
    if k > 0 {
        let p = (k - 1) as nat;
        law_sumcheck_keeps_claim(s, tables, comb, bp, be, g1, gn, n, p);
        let (s1, t1) = sumcheck_rounds(s, tables, comb, bp, be, g1, gn, p);
        let evals = round_evals(t1, comb, s1.claim);
        let s2 = one_round(s1, evals, bp[k - 1], be[k - 1], g1, gn);
        let half = pow2((n - k) as nat);
        lemma_pow2_unfold((n - p) as nat);
        assert(pow2((n - p) as nat) == 2 * half);
        lemma_round_challenge(s1, evals, bp[k - 1], be[k - 1], g1, gn);
        let r = s2.r.last();
        law_round_keeps_claim(t1, comb, s1.claim, r, half);
        let ts = t1.map_values(|t: Seq<Scalar>| bound_top(t, r));
        assert forall|m: int| 0 <= m < ts.len() implies (#[trigger] ts[m]).len() == half
            && all_canonical(ts[m]) by {
            let t = t1[m];
            assert(t.len() == 2 * half);
            assert forall|j: int| 0 <= j < ts[m].len() implies (
            #[trigger] ts[m][j]).canonical() by {
                canonical_ops(t[j], smul(r, ssub(t[j + half], t[j])));
            }
        }
    }
}

/// The last claim of a sum-check that starts at a true claim is the
/// combination of the values that the tables are left with.
pub proof fn law_sumcheck_ends(
    claim: Scalar,
    blind: Scalar,
    n: nat,
    tables: Seq<Seq<Scalar>>,
    comb: Comb,
    g1: Gens,
    gn: Gens,
    th: History,
    rh: History,
)
    requires
        tables_ok(tables, comb, pow2(n)),
        claim == vertex_sum(tables, comb, pow2(n)),
    ensures
        ({
            let (out, ts) = sumcheck_prove(claim, blind, n, tables, comb, g1, gn, th, rh);
            out.claim == comb.apply(leftovers(ts))
        }),
{
    let (bp, rh1) = challenges(rh, "blinds_poly"@, n);
    let (be, rh2) = challenges(rh1, "blinds_evals"@, n);
    let s = first_round(claim, blind, g1, th, rh2);
    law_sumcheck_keeps_claim(s, tables, comb, bp, be, g1, gn, n, n);
    let (out, ts) = sumcheck_rounds(s, tables, comb, bp, be, g1, gn, n);
    vstd::arithmetic::power2::lemma2_to64();
    assert(vertex_column(ts, 0) =~= leftovers(ts));
    let v = comb.apply(leftovers(ts));
    reveal_with_fuel(vertex_sum, 2);
    assert(v.canonical()) by {
        match comb {
            Comb::Quad => {
                canonical_ops(leftovers(ts)[0], leftovers(ts)[1]);
            },
            Comb::Cubic => {
                canonical_ops(smul(leftovers(ts)[0], leftovers(ts)[1]), leftovers(ts)[2]);
            },
            Comb::Additive => {
                let l = leftovers(ts);
                canonical_ops(l[0], ssub(smul(l[1], l[2]), l[3]));
            },
        }
    }
    neutral(v);
}

/// The inner product of a few coefficients stands for that of integers.
proof fn lemma_dot_few(a: Seq<Scalar>, x: Seq<int>, b: Seq<Scalar>, y: Seq<int>)
    requires
        a.len() == 3 || a.len() == 4,
        b.len() == a.len(),
        forall|i: int| 0 <= i < a.len() ==> stands_for(#[trigger] a[i], x[i]),
        forall|i: int| 0 <= i < a.len() ==> stands_for(#[trigger] b[i], y[i]),
    ensures
        a.len() == 3 ==> stands_for(dot(a, b), x[0] * y[0] + x[1] * y[1] + x[2] * y[2]),
        a.len() == 4 ==> stands_for(
            dot(a, b),
            x[0] * y[0] + x[1] * y[1] + x[2] * y[2] + x[3] * y[3],
        ),
{
    lemma_constants();
    lemma_small_mod(0, order());
    let p = pointwise(a, b);
    let (p0, p1, p2) = (smul(a[0], b[0]), smul(a[1], b[1]), smul(a[2], b[2]));
    assert(stands_for(a[0], x[0]) && stands_for(a[1], x[1]) && stands_for(a[2], x[2]));
    assert(stands_for(b[0], y[0]) && stands_for(b[1], y[1]) && stands_for(b[2], y[2]));
    stands_mul(a[0], x[0], b[0], y[0]);
    stands_mul(a[1], x[1], b[1], y[1]);
    stands_mul(a[2], x[2], b[2], y[2]);
    let s1 = sadd(szero(), p0);
    stands_add(szero(), 0, p0, x[0] * y[0]);
    let s2 = sadd(s1, p1);
    stands_add(s1, x[0] * y[0], p1, x[1] * y[1]);
    stands_add(s2, x[0] * y[0] + x[1] * y[1], p2, x[2] * y[2]);
    let s3 = sadd(s2, p2);
    reveal_with_fuel(sum, 5);
    let few = seq![p0, p1, p2];
    assert(few.drop_last() =~= seq![p0, p1]);
    assert(seq![p0, p1].drop_last() =~= seq![p0]);
    assert(seq![p0].drop_last() =~= Seq::<Scalar>::empty());
    assert(sum(few) == s3);
    if a.len() == 3 {
        assert(p =~= few);
    } else {
        let p3 = smul(a[3], b[3]);
        assert(stands_for(a[3], x[3]) && stands_for(b[3], y[3]));
        stands_mul(a[3], x[3], b[3], y[3]);
        stands_add(s3, x[0] * y[0] + x[1] * y[1] + x[2] * y[2], p3, x[3] * y[3]);
        assert(p.drop_last() =~= few);
        assert(p.last() == p3);
    }
}

/// What takes coefficients to the sum of the values at 0 and 1.
spec fn ends(n: nat) -> Seq<Scalar> {
    Seq::new(
        n,
        |i: int|
            if i == 0 {
                sadd(sone(), sone())
            } else {
                sone()
            },
    )
}

/// What takes coefficients to the value at a point.
spec fn powers(r: Scalar, n: nat) -> Seq<Scalar> {
    Seq::new(n, |i: int| chain(r, i as nat))
}

/// The values at 0 and 1 of an interpolated polynomial add up to those given.
proof fn lemma_ends(e: Seq<Scalar>)
    requires
        e.len() == 3 || e.len() == 4,
        all_canonical(e),
    ensures
        dot(interpolated(e), ends(e.len())) == sadd(e[0], e[1]),
{
    let c = interpolated(e);
    let n = c.len();
    let w = ends(n);
    lemma_constants();
    stands_itself(sone());
    stands_add(sone(), 1, sone(), 1);
    lemma_coeffs_canonical(e);
    let z = c.map_values(|s: Scalar| s@ as int);
    assert forall|i: int| 0 <= i < n implies stands_for(#[trigger] c[i], z[i]) by {
        stands_itself(c[i]);
    }
    let twos = seq![2int, 1, 1, 1];
    assert forall|i: int| 0 <= i < n implies stands_for(#[trigger] w[i], twos[i]) by {
    }
    lemma_dot_few(c, z, w, twos);
    let d = dot(c, w);
    let (y0, y1) = (e[0]@ as int, e[1]@ as int);
    stands_itself(e[0]);
    stands_itself(e[1]);
    stands_add(e[0], y0, e[1], y1);
    stands_sub(e[1], y1, e[0], y0);
    let t = ssub(e[1], e[0]);
    assert(c[0] == e[0]);
    assert(stands_for(c[1], z[1]) && stands_for(c[2], z[2]));
    if n == 3 {
        stands_sub(t, y1 - y0, c[2], z[2]);
        stands_same_int(c[1], z[1], y1 - y0 - z[2]);
        lemma_same_sum(d, z[0] * 2 + z[1] * 1 + z[2] * 1, z[1], y1 - y0 - z[2], y0 + y1);
    } else {
        assert(stands_for(c[3], z[3]));
        stands_sub(t, y1 - y0, c[3], z[3]);
        stands_sub(ssub(t, c[3]), y1 - y0 - z[3], c[2], z[2]);
        stands_same_int(c[1], z[1], y1 - y0 - z[3] - z[2]);
        lemma_same_sum(
            d,
            z[0] * 2 + z[1] * 1 + z[2] * 1 + z[3] * 1,
            z[1],
            y1 - y0 - z[3] - z[2],
            y0 + y1,
        );
    }
    stands_same(d, sadd(e[0], e[1]), y0 + y1);
}

/// The powers of a point take coefficients to the value there.
proof fn lemma_powers(c: Seq<Scalar>, r: Scalar)
    requires
        c.len() == 3 || c.len() == 4,
        all_canonical(c),
        r.canonical(),
    ensures
        dot(c, powers(r, c.len())) == uni_value(c, r),
{
    let n = c.len();
    let x = r@ as int;
    let z = c.map_values(|s: Scalar| s@ as int);
    assert forall|i: int| 0 <= i < n implies stands_for(#[trigger] c[i], z[i]) by {
        stands_itself(c[i]);
    }
    lemma_constants();
    stands_itself(sone());
    stands_itself(r);
    reveal_with_fuel(chain, 5);
    let r1 = smul(sone(), r);
    stands_mul(sone(), 1, r, x);
    assert(1 * x == x);
    let r2 = smul(r1, r);
    stands_mul(r1, x, r, x);
    stands_mul(r2, x * x, r, x);
    let (w, y) = (powers(r, n), seq![1int, x, x * x, x * x * x]);
    assert(w[0] == sone() && w[1] == r1 && w[2] == r2);
    assert forall|i: int| 0 <= i < n implies stands_for(#[trigger] w[i], y[i]) by {
    }
    lemma_dot_few(c, z, w, y);
    lemma_uni_stands(c, z, r);
    let low = z[0] * 1 + z[1] * x + z[2] * (x * x);
    if n == 3 {
        stands_same(dot(c, w), uni_value(c, r), low);
    } else {
        stands_same(dot(c, w), uni_value(c, r), low + z[3] * (x * x * x));
    }
}

/// What is proved in a round of a sum-check is true: the weights take the
/// coefficients of the polynomial of the round to the weighted sum of the
/// claim, which its values at 0 and 1 add up to, and of its value at the
/// challenge.
pub proof fn law_round_statement(e: Seq<Scalar>, claim: Scalar, w: Seq<Scalar>, r: Scalar)
    requires
        e.len() == 3 || e.len() == 4,
        all_canonical(e),
        claim == sadd(e[0], e[1]),
        r.canonical(),
    ensures
        ({
            let c = interpolated(e);
            dot(c, round_weights(w, r, c.len())) == sadd(
                smul(w[0], claim),
                smul(w[1], uni_value(c, r)),
            )
        }),
{
    let c = interpolated(e);
    let n = c.len();
    lemma_coeffs_canonical(e);
    lemma_ends(e);
    lemma_powers(c, r);
    let (a, b) = (scaled_list(w[0], ends(n)), scaled_list(w[1], powers(r, n)));
    assert(round_weights(w, r, n) =~= added(a, b));
    dot_added(a, b, c);
    dot_scaled(w[0], c, ends(n));
    dot_scaled(w[1], c, powers(r, n));
}

/// Two integers that one scalar stands for leave the same remainder.
proof fn stands_same_int(a: Scalar, x: int, y: int)
    requires
        stands_for(a, x),
        stands_for(a, y),
    ensures
        x % (order() as int) == y % (order() as int),
{
}

/// A sum stands for what it is with one of its terms replaced by a number that
/// leaves the same remainder.
proof fn lemma_same_sum(d: Scalar, total: int, part: int, other: int, result: int)
    requires
        stands_for(d, total),
        part % (order() as int) == other % (order() as int),
        total - part + other == result,
    ensures
        stands_for(d, result),
{
    let q = order() as int;
    lemma_add_mod_noop(total - part, part, q);
    lemma_add_mod_noop(total - part, other, q);
}

/// The coefficients of an interpolated polynomial are reduced.
proof fn lemma_coeffs_canonical(e: Seq<Scalar>)
    requires
        e.len() == 3 || e.len() == 4,
        all_canonical(e),
    ensures
        all_canonical(interpolated(e)),
{
    let c = interpolated(e);
    assert(e[0].canonical() && e[1].canonical());
    if e.len() == 3 {
        canonical_ops(
            inverse_of(2),
            sadd(ssub(ssub(e[2], e[1]), e[1]), e[0]),
        );
        canonical_ops(ssub(e[1], e[0]), quadratic_lead(e));
    } else {
        canonical_ops(inverse_of(6), ssub(sadd(ssub(e[3], thrice(e[2])), thrice(e[1])), e[0]));
        canonical_ops(
            inverse_of(2),
            ssub(
                sadd(
                    ssub(sadd(e[0], e[0]), sadd(thrice(e[1]), sadd(e[1], e[1]))),
                    sadd(thrice(e[2]), e[2]),
                ),
                e[3],
            ),
        );
        canonical_ops(ssub(ssub(e[1], e[0]), cubic_lead(e)), cubic_second(e));
    }
    assert forall|i: int| 0 <= i < c.len() implies (#[trigger] c[i]).canonical() by {
    }
}

/// The value of a polynomial stands for that with integer coefficients.
proof fn lemma_uni_stands(c: Seq<Scalar>, z: Seq<int>, r: Scalar)
    requires
        c.len() == 3 || c.len() == 4,
        forall|i: int| 0 <= i < c.len() ==> stands_for(#[trigger] c[i], z[i]),
        r.canonical(),
    ensures
        ({
            let x = r@ as int;
            &&& c.len() == 3 ==> stands_for(
                uni_value(c, r),
                z[0] * 1 + z[1] * x + z[2] * (x * x),
            )
            &&& c.len() == 4 ==> stands_for(
                uni_value(c, r),
                z[0] * 1 + z[1] * x + z[2] * (x * x) + z[3] * (x * x * x),
            )
        }),
{
    let x = r@ as int;
    stands_itself(r);
    assert(stands_for(c[0], z[0]) && stands_for(c[1], z[1]) && stands_for(c[2], z[2]));
    let v1 = sadd(c[0], smul(r, c[1]));
    stands_mul(r, x, c[1], z[1]);
    stands_add(c[0], z[0], smul(r, c[1]), x * z[1]);
    let r2 = smul(r, r);
    stands_mul(r, x, r, x);
    let v2 = sadd(v1, smul(r2, c[2]));
    stands_mul(r2, x * x, c[2], z[2]);
    stands_add(v1, z[0] + x * z[1], smul(r2, c[2]), x * x * z[2]);
    let (z0, z1, z2) = (z[0], z[1], z[2]);
    assert(z0 * 1 == z0 && x * z1 == z1 * x && x * x * z2 == z2 * (x * x)) by (nonlinear_arith);
    reveal_with_fuel(horner_up, 5);
    if c.len() == 3 {
        assert(uni_value(c, r) == v2);
    } else {
        assert(stands_for(c[3], z[3]));
        let r3 = smul(r2, r);
        stands_mul(r2, x * x, r, x);
        let v3 = sadd(v2, smul(r3, c[3]));
        stands_mul(r3, x * x * x, c[3], z[3]);
        stands_add(v2, z[0] + x * z[1] + x * x * z[2], smul(r3, c[3]), x * x * x * z[3]);
        assert(uni_value(c, r) == v3);
        let z3 = z[3];
        assert(x * x * x * z3 == z3 * (x * x * x)) by (nonlinear_arith);
    }
}

} // verus!
