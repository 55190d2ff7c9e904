//! What a proof about blocks claims is true.
use crate::dense_mlpoly::{bound_top, eq_evals, evaluation, lemma_eq_evals_len};
use crate::field::{
    canonical_ops, distrib_sub, mul_assoc, mul_comm, mul_zero, neutral, sub_self,
};
use crate::math::log2_up;
use crate::poly_laws::{
    law_value_by_binding, lemma_bound_entry, lemma_dot_two, lemma_eq_canonical, lemma_eq_factors,
};
use crate::r1cs_laws::{
    law_leftovers, lemma_cubic_sum, lemma_dot_weighted, lemma_instance, lemma_place,
    lemma_weighted_rows,
};
use crate::r1csproof::{block_taus, damped, middle_prove, mixed, BlockInput};
use crate::scalar::{lemma_constants, sadd, smul, sone, ssub, szero, Scalar};
use crate::sparse::{row_product, vector_product, Entry};
use crate::sumcheck::{leftovers, Comb};
use crate::sumcheck_laws::{law_sumcheck_ends, tables_ok, vertex_column, vertex_sum};
use crate::sums::{
    all_canonical, column_sums, dot_comm, dot_scaled, row_sums, scaled_list, sum_exchange,
};
use crate::table_laws::{
    cube_ok, instance_value, law_cube_value, law_table_value, lemma_row_canonical,
};
use crate::tables::{
    all_copies_bound, copies_bound, cube_plane, cube_table, cube_value, factor_plane,
    lemma_cube_table_len, lemma_factor_table_len, product_cube, reversed, weighted_three,
};
use crate::transcript::{challenges, History};
use crate::vectors::{
    dot, flat, lemma_flat_index, lemma_sum_canonical, lemma_uniform_len, pointwise,
};
use vstd::arithmetic::power2::pow2;
use vstd::prelude::*;

verus! {

/// Whether the values of the assignments of blocks are reduced.
pub open spec fn block_canonical(i: BlockInput) -> bool {
    forall|p: int, c: int|
        0 <= p < i.vars.len() && 0 <= c < i.vars[p].len() ==> all_canonical(#[trigger] i.z()[p][c])
}

/// Whether the assignment of every copy of every block satisfies the
/// constraints of the block.
pub open spec fn block_satisfied(i: BlockInput) -> bool {
    forall|p: int, c: int, x: int|
        0 <= p < i.vars.len() && 0 <= c < i.vars[p].len() && 0 <= x < i.inst.num_cons
            ==> #[trigger] i.inst.holds_at(p, i.z()[p][c], x)
}

/// Rows of reduced values make a list of reduced values.
pub proof fn lemma_flat_canonical(m: Seq<Seq<Scalar>>)
    requires
        forall|q: int| 0 <= q < m.len() ==> all_canonical(#[trigger] m[q]),
    ensures
        all_canonical(flat(m)),
    decreases m.len(),
{
    if m.len() > 0 {
        let m0 = m.drop_last();
        assert forall|q: int| 0 <= q < m0.len() implies all_canonical(#[trigger] m0[q]) by {
            assert(m0[q] == m[q]);
        }
        lemma_flat_canonical(m0);
        let (a, b) = (flat(m0), m.last());
        assert(all_canonical(m[m.len() - 1]));
        assert forall|j: int| 0 <= j < flat(m).len() implies (#[trigger] flat(m)[j]).canonical() by {
            if j < a.len() {
                assert(flat(m)[j] == a[j]);
            } else {
                assert(flat(m)[j] == b[j - a.len()]);
            }
        }
    }
}

/// The value of the table of a cube at a position.
proof fn lemma_cube_index(cube: Seq<Seq<Seq<Scalar>>>, bits: nat, nx: nat, x: int, q: int, p: int)
    requires
        0 <= x < nx,
        0 <= q < pow2(bits),
        0 <= p < cube.len(),
    ensures
        cube_table(cube, bits, nx)[x * (pow2(bits) * cube.len()) + (q * cube.len() + p)]
            == cube_value(cube, bits, x, q, p),
{
    let planes = Seq::new(nx, |x: int| flat(cube_plane(cube, bits, x)));
    let w = pow2(bits) * cube.len();
    assert forall|x: int| 0 <= x < nx implies (#[trigger] planes[x]).len() == w by {
        lemma_uniform_len(cube_plane(cube, bits, x), cube.len());
    }
    lemma_flat_index(cube_plane(cube, bits, x), cube.len(), q, p);
    lemma_flat_index(planes, w, x, q * cube.len() + p);
}

/// A sum of zeros.
pub proof fn lemma_zero_sum(tables: Seq<Seq<Scalar>>, comb: Comb, k: nat)
    requires
        forall|j: int|
            0 <= j < k ==> comb.apply(#[trigger] vertex_column(tables, j)) == szero(),
    ensures
        vertex_sum(tables, comb, k) == szero(),
    decreases k,
{
    lemma_constants();
    if k > 0 {
        lemma_zero_sum(tables, comb, (k - 1) as nat);
        assert(comb.apply(vertex_column(tables, k - 1)) == szero());
        neutral(szero());
    }
}

/// Weights are as many as the vertices, and reduced.
pub proof fn lemma_weights(r: Seq<Scalar>)
    ensures
        eq_evals(r).len() == pow2(r.len()),
        all_canonical(eq_evals(r)),
{
    lemma_eq_evals_len(r);
    assert forall|i: int| 0 <= i < eq_evals(r).len() implies (
    #[trigger] eq_evals(r)[i]).canonical() by {
        lemma_eq_canonical(r, i);
    }
}

/// The products of one of the lists of matrices are a cube.
proof fn lemma_product_cube(i: BlockInput, m: Seq<Seq<Entry>>)
    requires
        i.wf(),
        m.len() == i.vars.len(),
    ensures
        cube_ok(product_cube(m, i.inst.num_cons, i.z()), i.nx(), i.nq(), i.np()),
{
    i.lemma_sizes();
    let cube = product_cube(m, i.inst.num_cons, i.z());
    assert forall|p: int| 0 <= p < cube.len() implies (#[trigger] cube[p]).len() <= pow2(
        i.nq(),
    ) by {
        assert(i.block_fits(p));
    }
    assert forall|p: int, c: int| 0 <= p < cube.len() && 0 <= c < cube[p].len() implies (
    #[trigger] cube[p][c]).len() == pow2(i.nx()) && all_canonical(cube[p][c]) by {
        let z = i.z()[p][c];
        assert forall|x: int| 0 <= x < cube[p][c].len() implies (
        #[trigger] cube[p][c][x]).canonical() by {
            lemma_row_canonical(m[p], z, x);
        }
    }
}

/// The table of the products of one of the lists of matrices.
proof fn lemma_products_table(i: BlockInput, m: Seq<Seq<Entry>>)
    requires
        i.wf(),
        m.len() == i.vars.len(),
    ensures
        i.products(m).len() == pow2(i.nx() + i.nq() + i.np()),
        all_canonical(i.products(m)),
{
    i.lemma_sizes();
    lemma_product_cube(i, m);
    let (cube, bits, nx) = (product_cube(m, i.inst.num_cons, i.z()), i.nq(), i.inst.num_cons);
    lemma_cube_table_len(cube, bits, nx);
    lemma_constants();
    let planes = Seq::new(nx, |x: int| flat(cube_plane(cube, bits, x)));
    assert forall|x: int| 0 <= x < nx implies all_canonical(#[trigger] planes[x]) by {
        let plane = cube_plane(cube, bits, x);
        assert forall|q: int| 0 <= q < plane.len() implies all_canonical(#[trigger] plane[q]) by {
            assert forall|p: int| 0 <= p < plane[q].len() implies (
            #[trigger] plane[q][p]).canonical() by {
                let c = reversed(q as nat, bits) as int;
                if c < cube[p].len() {
                    assert(cube[p][c].len() == pow2(i.nx()));
                    assert(cube[p][c][x].canonical());
                }
            }
        }
        lemma_flat_canonical(plane);
    }
    lemma_flat_canonical(planes);
}

/// The tables of the first sum-check have the right sizes.
proof fn lemma_first_tables(i: BlockInput, th: History)
    requires
        i.wf(),
    ensures
        tables_ok(i.first_tables(th), Comb::Additive, pow2(i.nx() + i.nq() + i.np())),
{
    i.lemma_sizes();
    let (a, h1) = challenges(th, "challenge_tau_p"@, i.np());
    let (b, h2) = challenges(h1, "challenge_tau_q"@, i.nq());
    let (c, h3) = challenges(h2, "challenge_tau_x"@, i.nx());
    let (tp, tq, tx, _) = block_taus(i, th);
    lemma_weights(a);
    lemma_weights(b);
    lemma_weights(c);
    crate::transcript::lemma_challenges_len(th, "challenge_tau_p"@, i.np());
    crate::transcript::lemma_challenges_len(h1, "challenge_tau_q"@, i.nq());
    crate::transcript::lemma_challenges_len(h2, "challenge_tau_x"@, i.nx());
    lemma_factor_table_len(tp, tq, tx);
    let planes = Seq::new(tx.len(), |x: int| flat(factor_plane(tp, tq, tx[x])));
    assert forall|x: int| 0 <= x < tx.len() implies all_canonical(#[trigger] planes[x]) by {
        let plane = factor_plane(tp, tq, tx[x]);
        assert forall|q: int| 0 <= q < plane.len() implies all_canonical(#[trigger] plane[q]) by {
            assert forall|p: int| 0 <= p < plane[q].len() implies (
            #[trigger] plane[q][p]).canonical() by {
                canonical_ops(smul(tp[p], tq[q]), tx[x]);
            }
        }
        lemma_flat_canonical(plane);
    }
    lemma_flat_canonical(planes);
    lemma_products_table(i, i.inst.a);
    lemma_products_table(i, i.inst.b);
    lemma_products_table(i, i.inst.c);
}

/// The first sum-check over satisfied blocks is about a true claim: what the
/// constraints miss, weighted, adds up to zero.
pub proof fn law_block_first_claim(i: BlockInput, th: History)
    requires
        i.wf(),
        block_satisfied(i),
    ensures
        tables_ok(i.first_tables(th), Comb::Additive, pow2(i.nx() + i.nq() + i.np())),
        vertex_sum(i.first_tables(th), Comb::Additive, pow2(i.nx() + i.nq() + i.np())) == szero(),
{
    i.lemma_sizes();
    lemma_first_tables(i, th);
    let t = i.first_tables(th);
    let n = pow2(i.nx() + i.nq() + i.np());
    let (nx, nq, np) = (i.inst.num_cons, pow2(i.nq()), i.vars.len());
    let (a, b, c) = (
        product_cube(i.inst.a, nx, i.z()),
        product_cube(i.inst.b, nx, i.z()),
        product_cube(i.inst.c, nx, i.z()),
    );
    lemma_constants();
    assert forall|k: int| 0 <= k < n implies Comb::Additive.apply(
        #[trigger] vertex_column(t, k),
    ) == szero() by {
        let w = nq * np;
        lemma_place(k, w, nx);
        let (x, rest) = (k / (w as int), k % (w as int));
        lemma_place(rest, np, nq);
        let (q, p) = (rest / (np as int), rest % (np as int));
        lemma_cube_index(a, i.nq(), nx, x, q, p);
        lemma_cube_index(b, i.nq(), nx, x, q, p);
        lemma_cube_index(c, i.nq(), nx, x, q, p);
        let col = vertex_column(t, k);
        let copy = reversed(q as nat, i.nq()) as int;
        if copy < i.vars[p].len() {
            let z = i.z()[p][copy];
            assert(i.inst.holds_at(p, z, x));
            assert(col[1] == row_product(i.inst.a[p], z, x));
            assert(col[2] == row_product(i.inst.b[p], z, x));
            assert(col[3] == row_product(i.inst.c[p], z, x));
            lemma_row_canonical(i.inst.c[p], z, x);
            sub_self(col[3]);
        } else {
            assert(col[1] == szero() && col[2] == szero() && col[3] == szero());
            mul_zero(szero());
            sub_self(szero());
        }
        mul_zero(col[0]);
    }
    lemma_zero_sum(t, Comb::Additive, n);
}

/// The rows of the second sum-check, for each of the lists of matrices.
proof fn lemma_second_rows(i: BlockInput, m: Seq<Seq<Entry>>, r: Seq<Scalar>)
    requires
        i.wf(),
        block_canonical(i),
        r.len() == i.nx() + i.nq() + i.np(),
        all_canonical(r),
        m.len() == i.vars.len(),
        crate::r1csinstance::all_fit(m, i.inst.num_cons, i.inst.num_vars),
    ensures
        ({
            let z_len = 2 * i.width;
            let ex = eq_evals(r.take(i.nx() as int));
            let eq = eq_evals(i.copy_part(r).reverse());
            let ep = eq_evals(r.skip((i.nx() + i.nq()) as int));
            let cube = product_cube(m, i.inst.num_cons, i.z());
            &&& forall|p: int|
                0 <= p < i.vars.len() ==> dot(
                    copies_bound(#[trigger] i.z()[p], eq, z_len),
                    vector_product(m[p], ex, z_len),
                ) == instance_value(cube, ex, eq, p)
            &&& evaluation(i.products(m), r) == dot(
                ep,
                Seq::new(ep.len(), |p: int| instance_value(cube, ex, eq, p)),
            )
        }),
{
    i.lemma_sizes();
    let z_len = 2 * i.width;
    let (rx, rq, rp) = (
        r.take(i.nx() as int),
        i.copy_part(r),
        r.skip((i.nx() + i.nq()) as int),
    );
    let (ex, eq, ep) = (eq_evals(rx), eq_evals(rq.reverse()), eq_evals(rp));
    lemma_weights(rx);
    lemma_weights(rq.reverse());
    lemma_weights(rp);
    let cube = product_cube(m, i.inst.num_cons, i.z());
    lemma_product_cube(i, m);
    assert forall|p: int| 0 <= p < i.vars.len() implies dot(
        copies_bound(#[trigger] i.z()[p], eq, z_len),
        vector_product(m[p], ex, z_len),
    ) == instance_value(cube, ex, eq, p) by {
        assert(i.block_fits(p));
        let z = i.z()[p];
        assert forall|c: int| 0 <= c < z.len() implies (#[trigger] z[c]).len() == z_len
            && all_canonical(z[c]) by {
            assert(all_canonical(i.z()[p][c]));
            assert(i.vars[p][c].len() == i.width);
            assert(i.inputs[p][c].len() == i.width);
        }
        lemma_instance(m[p], z, ex, eq, cube, p, z_len);
    }
    assert(rx + (rq + rp) =~= r);
    assert forall|j: int| 0 <= j < rq.len() implies (#[trigger] rq[j]).canonical() by {
        assert(r[i.nx() + j].canonical());
    }
    law_cube_value(cube, rx, rq, rp);
}

/// The second sum-check is about a true claim: over all instances and columns,
/// the assignments times the weighted matrices add up to the joint claim, which
/// is made of the values of the tables of products at the challenges of the
/// first sum-check.
pub proof fn law_block_second_claim(
    i: BlockInput,
    r: Seq<Scalar>,
    ra: Scalar,
    rb: Scalar,
    rc: Scalar,
)
    requires
        i.wf(),
        block_canonical(i),
        r.len() == i.nx() + i.nq() + i.np(),
        all_canonical(r),
    ensures
        tables_ok(i.second_tables(r, ra, rb, rc), Comb::Cubic, pow2(i.np() + i.ny())),
        vertex_sum(i.second_tables(r, ra, rb, rc), Comb::Cubic, pow2(i.np() + i.ny())) == sadd(
            sadd(
                smul(ra, evaluation(i.products(i.inst.a), r)),
                smul(rb, evaluation(i.products(i.inst.b), r)),
            ),
            smul(rc, evaluation(i.products(i.inst.c), r)),
        ),
{
    i.lemma_sizes();
    let n = i.vars.len();
    let z_len = 2 * i.width;
    let (rx, rq, rp) = (
        r.take(i.nx() as int),
        i.copy_part(r),
        r.skip((i.nx() + i.nq()) as int),
    );
    let (ex, eq, ep) = (eq_evals(rx), eq_evals(rq.reverse()), eq_evals(rp));
    lemma_weights(rx);
    lemma_weights(rp);
    let zs = i.z().map_values(|m: Seq<Seq<Scalar>>| copies_bound(m, eq, z_len));
    let a = i.inst.a.map_values(|x: Seq<Entry>| vector_product(x, ex, z_len));
    let b = i.inst.b.map_values(|x: Seq<Entry>| vector_product(x, ex, z_len));
    let c = i.inst.c.map_values(|x: Seq<Entry>| vector_product(x, ex, z_len));
    let ws = Seq::new(n, |p: int| weighted_three(ra, rb, rc, a[p], b[p], c[p]));
    lemma_weighted_rows(ra, rb, rc, a, b, c, z_len);
    lemma_cubic_sum(zs, ws, ep, z_len);
    let (ca, cb, cc) = (
        product_cube(i.inst.a, i.inst.num_cons, i.z()),
        product_cube(i.inst.b, i.inst.num_cons, i.z()),
        product_cube(i.inst.c, i.inst.num_cons, i.z()),
    );
    lemma_second_rows(i, i.inst.a, r);
    lemma_second_rows(i, i.inst.b, r);
    lemma_second_rows(i, i.inst.c, r);
    let va = Seq::new(n, |p: int| instance_value(ca, ex, eq, p));
    let vb = Seq::new(n, |p: int| instance_value(cb, ex, eq, p));
    let vc = Seq::new(n, |p: int| instance_value(cc, ex, eq, p));
    let d = Seq::new(n, |p: int| dot(zs[p], ws[p]));
    assert forall|p: int| 0 <= p < n implies d[p] == weighted_three(ra, rb, rc, va, vb, vc)[p] by {
        assert(zs[p] == copies_bound(i.z()[p], eq, z_len));
        lemma_dot_weighted(zs[p], ra, rb, rc, a[p], b[p], c[p]);
    }
    assert(d =~= weighted_three(ra, rb, rc, va, vb, vc));
    lemma_dot_weighted(ep, ra, rb, rc, va, vb, vc);
    assert forall|p: int| 0 <= p < n implies all_canonical(#[trigger] zs[p]) by {
        assert forall|y: int| 0 <= y < zs[p].len() implies (#[trigger] zs[p][y]).canonical() by {
            let z = i.z()[p];
            lemma_sum_canonical(pointwise(Seq::new(z.len(), |q: int| z[q][y]), eq));
        }
    }
    assert forall|p: int| 0 <= p < n implies all_canonical(#[trigger] ws[p]) by {
        assert forall|y: int| 0 <= y < ws[p].len() implies (#[trigger] ws[p][y]).canonical() by {
            canonical_ops(
                sadd(smul(ra, a[p][y]), smul(rb, b[p][y])),
                smul(rc, c[p][y]),
            );
        }
    }
    let t = i.second_tables(r, ra, rb, rc);
    assert(t =~= seq![flat(zs), flat(ws), crate::tables::stretched(ep, z_len)]);
    lemma_second_shape(zs, ws, ep, z_len);
}

/// The tables of the second sum-check have the right sizes.
proof fn lemma_second_shape(
    zs: Seq<Seq<Scalar>>,
    ws: Seq<Seq<Scalar>>,
    e: Seq<Scalar>,
    width: nat,
)
    requires
        zs.len() == e.len(),
        ws.len() == e.len(),
        forall|p: int| 0 <= p < zs.len() ==> (#[trigger] zs[p]).len() == width,
        forall|p: int| 0 <= p < ws.len() ==> (#[trigger] ws[p]).len() == width,
        forall|p: int| 0 <= p < zs.len() ==> all_canonical(#[trigger] zs[p]),
        forall|p: int| 0 <= p < ws.len() ==> all_canonical(#[trigger] ws[p]),
        all_canonical(e),
    ensures
        tables_ok(
            seq![flat(zs), flat(ws), crate::tables::stretched(e, width)],
            Comb::Cubic,
            e.len() * width,
        ),
{
    let es = e.map_values(|x: Scalar| crate::vectors::repeated(x, width));
    assert forall|p: int| 0 <= p < es.len() implies all_canonical(#[trigger] es[p]) by {
        assert(e[p].canonical());
    }
    lemma_uniform_len(zs, width);
    lemma_uniform_len(ws, width);
    lemma_uniform_len(es, width);
    lemma_flat_canonical(zs);
    lemma_flat_canonical(ws);
    lemma_flat_canonical(es);
}

/// The weight of the first vertex takes one factor for each coordinate.
pub proof fn lemma_damped(v: Scalar, r: Seq<Scalar>, k: nat)
    requires
        v.canonical(),
        all_canonical(r),
        k <= r.len(),
    ensures
        damped(v, r, k) == smul(eq_evals(r.take(k as int))[0], v),
    decreases k,
{
    lemma_constants();
    vstd::arithmetic::power2::lemma2_to64();
    if k == 0 {
        assert(r.take(0) =~= Seq::<Scalar>::empty());
        neutral(v);
    } else {
        let p = (k - 1) as nat;
        lemma_damped(v, r, p);
        let (a, x) = (r.take(k as int), r[p as int]);
        assert(a.drop_last() =~= r.take(p as int));
        lemma_weights(a);
        lemma_weights(r.take(p as int));
        vstd::arithmetic::power2::lemma_pow2_pos(k);
        vstd::arithmetic::power2::lemma_pow2_pos(p);
        let t = eq_evals(r.take(p as int))[0];
        assert(t.canonical() && x.canonical());
        canonical_ops(t, x);
        // t - t * x == t * (1 - x)
        distrib_sub(t, sone(), x);
        neutral(t);
        assert(eq_evals(a)[0] == smul(t, ssub(sone(), x)));
        let y = ssub(sone(), x);
        mul_assoc(t, v, y);
        mul_comm(v, y);
        mul_assoc(t, y, v);
    }
}

/// Two lists of rows mixed, row by row.
pub proof fn lemma_mixed_rows(a: Seq<Seq<Scalar>>, b: Seq<Seq<Scalar>>, r: Scalar, width: nat)
    requires
        a.len() == b.len(),
        forall|q: int| 0 <= q < a.len() ==> (#[trigger] a[q]).len() == width,
        forall|q: int| 0 <= q < b.len() ==> (#[trigger] b[q]).len() == width,
    ensures
        mixed(flat(a), flat(b), r) == flat(Seq::new(a.len(), |q: int| mixed(a[q], b[q], r))),
{
    let m = Seq::new(a.len(), |q: int| mixed(a[q], b[q], r));
    let all = mixed(flat(a), flat(b), r);
    lemma_uniform_len(a, width);
    lemma_uniform_len(m, width);
    assert forall|k: int| 0 <= k < all.len() implies all[k] == flat(m)[k] by {
        lemma_place(k, width, a.len());
        let (q, j) = (k / (width as int), k % (width as int));
        lemma_flat_index(a, width, q, j);
        lemma_flat_index(b, width, q, j);
        lemma_flat_index(m, width, q, j);
    }
    assert(all =~= flat(m));
}

/// The value of two lists side by side is that of the lists mixed by the first
/// coordinate.
pub proof fn lemma_joined_value(a: Seq<Scalar>, b: Seq<Scalar>, r: Seq<Scalar>)
    requires
        r.len() > 0,
        all_canonical(r),
        all_canonical(a + b),
        a.len() == pow2((r.len() - 1) as nat),
        b.len() == a.len(),
    ensures
        evaluation(a + b, r) == evaluation(mixed(a, b, r[0]), r.skip(1)),
{
    let z = a + b;
    vstd::arithmetic::power2::lemma_pow2_unfold(r.len());
    law_value_by_binding(z, r);
    let (x, y) = (bound_top(z, r[0]), mixed(a, b, r[0]));
    assert forall|j: int| 0 <= j < a.len() implies x[j] == y[j] by {
        assert(z[j].canonical() && z[j + a.len()].canonical());
        assert(z[j] == a[j] && z[j + a.len()] == b[j]);
        lemma_bound_entry(r[0], a[j], b[j]);
        lemma_dot_two(ssub(sone(), r[0]), r[0], a[j], b[j]);
    }
    assert(x =~= y);
}

/// The combination of the copies of a block has, at the coordinates of a
/// column, the value that is opened of the block.
proof fn lemma_block_value(i: BlockInput, rq: Seq<Scalar>, ry: Seq<Scalar>, p: int)
    requires
        i.wf(),
        block_canonical(i),
        0 <= p < i.vars.len(),
        rq.len() == i.nq(),
        ry.len() == i.ny(),
        all_canonical(rq),
        all_canonical(ry),
    ensures
        evaluation(copies_bound(i.z()[p], eq_evals(rq), 2 * i.width), ry) == i.full_values(
            rq,
            ry,
        )[p],
{
    i.lemma_sizes();
    i.lemma_opening(p);
    assert(i.block_fits(p));
    let (vars, inputs, z) = (i.vars[p], i.inputs[p], i.z()[p]);
    let n = vars.len();
    let width = i.width;
    let k = log2_up(n);
    let more = (i.nq() - k) as nat;
    let (head, tail, ry1) = (rq.take(more as int), rq.skip(more as int), ry.skip(1));
    assert(head + tail =~= rq);
    crate::sparse_mlpoly::lemma_pow2_product(n, n);
    vstd::arithmetic::power2::lemma_pow2_unfold(i.ny());
    lemma_weights(rq);
    lemma_weights(ry);
    lemma_weights(head);
    lemma_weights(tail);
    let (eq, ey) = (eq_evals(rq), eq_evals(ry));
    vstd::arithmetic::power2::lemma_pow2_adds(more, k);
    vstd::arithmetic::power2::lemma_pow2_pos(more);
    let front = eq.take(n as int);
    assert(n <= eq.len()) by (nonlinear_arith)
        requires
            eq.len() == pow2(more) * n,
            pow2(more) >= 1,
    ;
    // columns outside copies
    let at = |y: int, c: int| z[c][y];
    sum_exchange(ey, front, at);
    let zb = copies_bound(z, eq, 2 * width);
    let a = row_sums(2 * width, front, at);
    assert forall|y: int| 0 <= y < 2 * width implies a[y] == zb[y] by {
        let col = Seq::new(z.len(), |c: int| z[c][y]);
        assert(Seq::new(front.len(), |c: int| at(y, c)) =~= col);
        dot_comm(front, col);
        assert(pointwise(col, front) =~= pointwise(col, eq));
    }
    assert(a =~= zb);
    // the value of each copy
    let m = Seq::new(n, |c: int| mixed(vars[c], inputs[c], ry[0]));
    let vals = m.map_values(|row: Seq<Scalar>| evaluation(row, ry1));
    let d = column_sums(ey, n, at);
    assert forall|c: int| 0 <= c < n implies d[c] == vals[c] by {
        assert(vars[c].len() == width && inputs[c].len() == width);
        assert(all_canonical(i.z()[p][c]));
        assert(z[c] == vars[c] + inputs[c]);
        assert(Seq::new(2 * width, |y: int| at(y, c)) =~= z[c]);
        lemma_joined_value(vars[c], inputs[c], ry);
    }
    assert(d =~= vals);
    // the weights of the copies that are there
    let first = eq_evals(head)[0];
    assert forall|c: int| 0 <= c < n implies front[c] == scaled_list(first, eq_evals(tail))[c] by {
        lemma_eq_factors(head, tail, 0, c);
        assert(0 * pow2(tail.len()) + c == c) by (nonlinear_arith);
    }
    assert(front =~= scaled_list(first, eq_evals(tail)));
    dot_scaled(first, eq_evals(tail), vals);
    dot_comm(front, vals);
    dot_comm(eq_evals(tail), vals);
    assert forall|c: int| 0 <= c < m.len() implies (#[trigger] m[c]).len() == pow2(ry1.len()) by {
        assert(vars[c].len() == width);
    }
    law_table_value(m, tail, ry1);
    lemma_mixed_rows(vars, inputs, ry[0], width);
    let o = i.opening(rq, ry, p);
    assert(o.value == evaluation(vals, tail));
    lemma_sum_canonical(pointwise(eq_evals(o.point), o.z));
    lemma_damped(o.value, rq, more);
}

/// What the assignments come to in the second sum-check is the value that is
/// opened of the blocks.
pub proof fn law_block_opened(i: BlockInput, rq: Seq<Scalar>, rp: Seq<Scalar>, ry: Seq<Scalar>)
    requires
        i.wf(),
        block_canonical(i),
        rq.len() == i.nq(),
        rp.len() == i.np(),
        ry.len() == i.ny(),
        all_canonical(rq),
        all_canonical(ry),
    ensures
        evaluation(all_copies_bound(i.z(), eq_evals(rq), 2 * i.width), rp + ry) == evaluation(
            i.full_values(rq, ry),
            rp,
        ),
{
    i.lemma_sizes();
    let z_len = 2 * i.width;
    let zs = i.z().map_values(|m: Seq<Seq<Scalar>>| copies_bound(m, eq_evals(rq), z_len));
    law_table_value(zs, rp, ry);
    let vals = zs.map_values(|row: Seq<Scalar>| evaluation(row, ry));
    assert forall|p: int| 0 <= p < zs.len() implies vals[p] == i.full_values(rq, ry)[p] by {
        lemma_block_value(i, rq, ry, p);
    }
    assert(vals =~= i.full_values(rq, ry));
}

/// What a proof about satisfied blocks claims is true: the first sum-check ends
/// in the combination of the claims that follow it, the joint claim is the sum
/// that the second sum-check is about, and that sum-check ends in the product
/// of what its tables come to, the first of which is the value that is opened.
pub proof fn law_block_claims(i: BlockInput, th: History, rh: History)
    requires
        i.wf(),
        block_canonical(i),
        block_satisfied(i),
    ensures
        ({
            let (s1, t1) = i.first_check(th, rh);
            let mid = i.middle(th, rh);
            let (s2, t2) = i.second_check(th, rh);
            let (l1, l2) = (leftovers(t1), leftovers(t2));
            let (rp, ry) = (s2.r.take(i.np() as int), s2.r.skip(i.np() as int));
            &&& s1.claim == smul(ssub(smul(l1[1], l1[2]), l1[3]), l1[0])
            &&& mid.claim == vertex_sum(
                i.second_tables(s1.r, mid.ra, mid.rb, mid.rc),
                Comb::Cubic,
                pow2(i.np() + i.ny()),
            )
            &&& s2.claim == smul(smul(l2[0], l2[1]), l2[2])
            &&& l2[0] == evaluation(i.full_values(i.copy_part(s1.r).reverse(), ry), rp)
        }),
{
    let n1 = i.nx() + i.nq() + i.np();
    let n2 = i.np() + i.ny();
    let t = i.first_tables(th);
    let g1 = i.gens.gens_sc.gens_1@;
    let g4 = i.gens.gens_sc.gens_4@;
    let h1 = block_taus(i, th).3;
    law_block_first_claim(i, th);
    law_sumcheck_ends(szero(), szero(), n1, t, Comb::Additive, g1, g4, h1, rh);
    law_leftovers(szero(), szero(), n1, t, Comb::Additive, g1, g4, h1, rh);
    let (s1, t1) = i.first_check(th, rh);
    let l1 = leftovers(t1);
    mul_comm(l1[0], ssub(smul(l1[1], l1[2]), l1[3]));
    let mid = i.middle(th, rh);
    assert(mid.claim == sadd(
        sadd(smul(mid.ra, l1[1]), smul(mid.rb, l1[2])),
        smul(mid.rc, l1[3]),
    )) by {
        reveal(middle_prove);
    }
    let u = i.second_tables(s1.r, mid.ra, mid.rb, mid.rc);
    law_block_second_claim(i, s1.r, mid.ra, mid.rb, mid.rc);
    assert(l1[1] == evaluation(t[1], s1.r));
    assert(l1[2] == evaluation(t[2], s1.r));
    assert(l1[3] == evaluation(t[3], s1.r));
    law_sumcheck_ends(mid.claim, mid.blind, n2, u, Comb::Cubic, g1, g4, mid.th, mid.rh);
    law_leftovers(mid.claim, mid.blind, n2, u, Comb::Cubic, g1, g4, mid.th, mid.rh);
    let (s2, t2) = i.second_check(th, rh);
    let (rp, ry) = (s2.r.take(i.np() as int), s2.r.skip(i.np() as int));
    assert(rp + ry =~= s2.r);
    let rq = i.copy_part(s1.r).reverse();
    assert forall|j: int| 0 <= j < rq.len() implies (#[trigger] rq[j]).canonical() by {
        assert(s1.r[i.nx() + (rq.len() - 1 - j)].canonical());
    }
    assert forall|j: int| 0 <= j < ry.len() implies (#[trigger] ry[j]).canonical() by {
        assert(s2.r[i.np() + j].canonical());
    }
    law_block_opened(i, rq, rp, ry);
    assert(leftovers(t2)[0] == evaluation(u[0], s2.r));
}

} // verus!
