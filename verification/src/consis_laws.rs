//! What a proof about an execution claims is true.
use crate::block_laws::{
    lemma_flat_canonical, lemma_joined_value, lemma_mixed_rows, lemma_weights, lemma_zero_sum,
};
use crate::dense_mlpoly::{eq_evals, evaluation};
use crate::field::{canonical_ops, mul_comm, mul_zero, sub_self};
use crate::math::{bits, log2_up};
use crate::poly_laws::{law_digits_wrap, law_value_at_vertex};
use crate::r1cs_laws::{
    law_leftovers, lemma_bound_front, lemma_bound_front_same, lemma_dot_weighted, lemma_instance,
    lemma_place, lemma_vertex_list,
};
use crate::r1csproof::{bound_front, middle_prove, mixed, ConsisInput};
use crate::scalar::{lemma_constants, sadd, smul, sone, ssub, szero, Scalar};
use crate::sparse::{fits_in, row_product, vector_product, Entry};
use crate::sumcheck::{leftovers, Comb};
use crate::sumcheck_laws::{law_sumcheck_ends, tables_ok, vertex_column, vertex_sum};
use crate::sums::{all_canonical, dot_comm};
use crate::table_laws::{copy_value, law_table_value, lemma_row_canonical};
use crate::tables::{column_table, copies_bound, products_of, weighted_three};
use crate::transcript::{challenges, lemma_challenges_len, History};
use crate::vectors::{
    dot, flat, lemma_flat_index, lemma_uniform_len, pointwise, repeated,
};
use vstd::arithmetic::power2::pow2;
use vstd::prelude::*;

verus! {

/// Whether the values of an execution are reduced.
pub open spec fn execution_canonical(i: ConsisInput) -> bool {
    forall|q: int| 0 <= q < i.executed.len() ==> all_canonical(#[trigger] i.executed[q])
}

/// Whether each executed block, with the next one, satisfies the constraints
/// that are multiplied with the execution.
pub open spec fn execution_satisfied(i: ConsisInput) -> bool {
    forall|q: int, x: int|
        0 <= q < i.executed.len() && 0 <= x < i.inst.num_cons ==> #[trigger] i.block_inst.holds_at(
            0,
            i.pairs()[q],
            x,
        )
}

/// Whether the constraints that are multiplied with the execution are those of
/// the execution.
pub open spec fn one_program(i: ConsisInput) -> bool {
    &&& i.block_inst.a[0] == i.inst.a[0]
    &&& i.block_inst.b[0] == i.inst.b[0]
    &&& i.block_inst.c[0] == i.inst.c[0]
}

/// After the last executed block comes the first one.
pub proof fn law_execution_wraps(i: ConsisInput)
    requires
        i.wf(),
        execution_canonical(i),
    ensures
        i.beyond() == i.executed[0],
{
    i.lemma_sizes();
    let e = flat(i.executed);
    let size = i.executed.len() * i.width;
    let len = log2_up(size);
    lemma_flat_canonical(i.executed);
    assert forall|j: int| 0 <= j < i.width implies i.beyond()[j] == i.executed[0][j] by {
        law_digits_wrap(j as nat, len);
        lemma_flat_index(i.executed, i.width, 0, j);
        assert(e[j].canonical());
        law_value_at_vertex(e, j as nat, len);
    }
    assert(i.beyond() =~= i.executed[0]);
}

/// The pairs of executed blocks have the right size.
proof fn lemma_pairs(i: ConsisInput)
    requires
        i.wf(),
        execution_canonical(i),
    ensures
        i.pairs().len() == i.executed.len(),
        forall|q: int|
            0 <= q < i.pairs().len() ==> (#[trigger] i.pairs()[q]).len() == 2 * i.width
                && all_canonical(i.pairs()[q]),
{
    law_execution_wraps(i);
    assert forall|q: int| 0 <= q < i.pairs().len() implies (#[trigger] i.pairs()[q]).len() == 2
        * i.width && all_canonical(i.pairs()[q]) by {
        let next = if q < i.executed.len() - 1 {
            i.executed[q + 1]
        } else {
            i.executed[0]
        };
        let p = i.pairs()[q];
        assert(p == i.executed[q] + next);
        assert(all_canonical(i.executed[q]) && all_canonical(next));
        assert forall|j: int| 0 <= j < p.len() implies (#[trigger] p[j]).canonical() by {
            if j < i.width {
                assert(p[j] == i.executed[q][j]);
            } else {
                assert(p[j] == next[j - i.width]);
            }
        }
    }
}

/// The table of the products of a matrix.
proof fn lemma_pair_products(i: ConsisInput, m: Seq<Entry>)
    requires
        i.wf(),
    ensures
        i.products(m).len() == pow2(i.nq() + i.nx()),
        all_canonical(i.products(m)),
        forall|q: int, x: int|
            0 <= q < i.executed.len() && 0 <= x < i.inst.num_cons ==> i.products(m)[q
                * i.inst.num_cons + x] == #[trigger] row_product(m, i.pairs()[q], x),
{
    i.lemma_sizes();
    let n = i.inst.num_cons;
    let rows = products_of(m, n, i.pairs());
    lemma_uniform_len(rows, n);
    assert forall|q: int| 0 <= q < rows.len() implies all_canonical(#[trigger] rows[q]) by {
        assert forall|x: int| 0 <= x < rows[q].len() implies (
        #[trigger] rows[q][x]).canonical() by {
            lemma_row_canonical(m, i.pairs()[q], x);
        }
    }
    lemma_flat_canonical(rows);
    assert forall|q: int, x: int| 0 <= q < i.executed.len() && 0 <= x < n implies i.products(m)[q
        * n + x] == #[trigger] row_product(m, i.pairs()[q], x) by {
        lemma_flat_index(rows, n, q, x);
    }
}

/// The first sum-check over a satisfied execution is about a true claim: what
/// the constraints miss, weighted, adds up to zero.
pub proof fn law_execution_first_claim(i: ConsisInput, th: History)
    requires
        i.wf(),
        execution_satisfied(i),
    ensures
        tables_ok(i.first_tables(th), Comb::Additive, pow2(i.nq() + i.nx())),
        vertex_sum(i.first_tables(th), Comb::Additive, pow2(i.nq() + i.nx())) == szero(),
{
    i.lemma_sizes();
    let t = i.first_tables(th);
    let n = pow2(i.nq() + i.nx());
    let (a, b, c) = (i.block_inst.a[0], i.block_inst.b[0], i.block_inst.c[0]);
    lemma_challenges_len(th, "challenge_tau"@, i.nq() + i.nx());
    lemma_weights(challenges(th, "challenge_tau"@, i.nq() + i.nx()).0);
    lemma_pair_products(i, a);
    lemma_pair_products(i, b);
    lemma_pair_products(i, c);
    let nx = i.inst.num_cons;
    assert forall|k: int| 0 <= k < n implies Comb::Additive.apply(
        #[trigger] vertex_column(t, k),
    ) == szero() by {
        lemma_place(k, nx, i.executed.len());
        let (q, x) = (k / (nx as int), k % (nx as int));
        let z = i.pairs()[q];
        assert(i.block_inst.holds_at(0, z, x));
        let col = vertex_column(t, k);
        assert(col[1] == row_product(a, z, x));
        assert(col[2] == row_product(b, z, x));
        assert(col[3] == row_product(c, z, x));
        lemma_row_canonical(c, z, x);
        sub_self(col[3]);
        mul_zero(col[0]);
    }
    lemma_zero_sum(t, Comb::Additive, n);
}

/// The execution with the coordinates of the executed block set.
proof fn lemma_execution_bound(i: ConsisInput, rq: Seq<Scalar>)
    requires
        i.wf(),
        execution_canonical(i),
        rq.len() == i.nq(),
        all_canonical(rq),
    ensures
        bound_front(flat(i.pairs()), rq, i.nq()) == copies_bound(
            i.pairs(),
            eq_evals(rq),
            2 * i.width,
        ),
        all_canonical(bound_front(flat(i.pairs()), rq, i.nq())),
{
    i.lemma_sizes();
    lemma_pairs(i);
    let (z, width) = (i.pairs(), 2 * i.width);
    let b = bound_front(flat(z), rq, i.nq());
    let want = copies_bound(z, eq_evals(rq), width);
    lemma_uniform_len(z, width);
    lemma_flat_canonical(z);
    lemma_weights(rq);
    lemma_constants();
    lemma_front_shape(flat(z), rq, i.nq(), i.ny());
    assert forall|y: int| 0 <= y < width implies b[y] == want[y] by {
        let at = bits(y as nat, i.ny());
        let r = rq + at;
        assert forall|j: int| 0 <= j < r.len() implies (#[trigger] r[j]).canonical() by {
            if j < rq.len() {
                assert(r[j] == rq[j]);
            } else {
                assert(r[j] == at[j - rq.len()]);
            }
        }
        lemma_bound_front(flat(z), r, i.nq());
        assert(r.skip(i.nq() as int) =~= at);
        assert(r.take(i.nq() as int) =~= rq.take(i.nq() as int));
        lemma_bound_front_same(flat(z), r, rq, i.nq());
        assert(b[y].canonical());
        law_value_at_vertex(b, y as nat, i.ny());
        law_table_value(z, rq, at);
        let vals = z.map_values(|row: Seq<Scalar>| evaluation(row, at));
        let col = Seq::new(z.len(), |q: int| z[q][y]);
        assert forall|q: int| 0 <= q < z.len() implies vals[q] == col[q] by {
            assert(z[q].len() == width && all_canonical(z[q]));
            law_value_at_vertex(z[q], y as nat, i.ny());
        }
        assert(vals =~= col);
        dot_comm(eq_evals(rq), col);
    }
    assert(b =~= want);
}

/// The size of what remains when the first coordinates are set.
proof fn lemma_front_shape(z: Seq<Scalar>, rq: Seq<Scalar>, k: nat, more: nat)
    requires
        z.len() == pow2(k + more),
        all_canonical(z),
        rq.len() == k,
        all_canonical(rq),
    ensures
        bound_front(z, rq, k).len() == pow2(more),
        all_canonical(bound_front(z, rq, k)),
{
    lemma_constants();
    let r = rq + repeated(szero(), more);
    assert forall|j: int| 0 <= j < r.len() implies (#[trigger] r[j]).canonical() by {
        if j < rq.len() {
            assert(r[j] == rq[j]);
        }
    }
    lemma_bound_front(z, r, k);
    assert(r.take(k as int) =~= rq.take(k as int));
    lemma_bound_front_same(z, r, rq, k);
}

/// One of the matrices, between the weights of the rows and the execution with
/// the coordinates of the executed block set, is the value of the table of its
/// products.
proof fn lemma_execution_matrix(i: ConsisInput, m: Seq<Entry>, r: Seq<Scalar>)
    requires
        i.wf(),
        execution_canonical(i),
        r.len() == i.nq() + i.nx(),
        all_canonical(r),
        fits_in(m, i.inst.num_cons, 2 * i.width),
    ensures
        dot(
            copies_bound(i.pairs(), eq_evals(r.take(i.nq() as int)), 2 * i.width),
            vector_product(m, eq_evals(r.skip(i.nq() as int)), 2 * i.width),
        ) == evaluation(i.products(m), r),
{
    i.lemma_sizes();
    lemma_pairs(i);
    let (rq, rx) = (r.take(i.nq() as int), r.skip(i.nq() as int));
    let (eq, ex) = (eq_evals(rq), eq_evals(rx));
    lemma_weights(rq);
    lemma_weights(rx);
    let z = i.pairs();
    let rows = products_of(m, i.inst.num_cons, z);
    let cube = seq![rows];
    lemma_instance(m, z, ex, eq, cube, 0, 2 * i.width);
    assert(rq + rx =~= r);
    law_table_value(rows, rq, rx);
    let vals = rows.map_values(|row: Seq<Scalar>| evaluation(row, rx));
    assert(vals =~= Seq::new(eq.len(), |c: int| copy_value(cube, ex, c, 0)));
}

/// The second sum-check is about a true claim, where the constraints that are
/// multiplied with the execution are those of the execution: over all columns,
/// the execution times the weighted matrices adds up to the joint claim, which
/// is made of the values of the tables of products at the challenges of the
/// first sum-check.
pub proof fn law_execution_second_claim(
    i: ConsisInput,
    r: Seq<Scalar>,
    ra: Scalar,
    rb: Scalar,
    rc: Scalar,
)
    requires
        i.wf(),
        execution_canonical(i),
        one_program(i),
        r.len() == i.nq() + i.nx(),
        all_canonical(r),
    ensures
        tables_ok(i.second_tables(r, ra, rb, rc), Comb::Quad, pow2(i.ny())),
        vertex_sum(i.second_tables(r, ra, rb, rc), Comb::Quad, pow2(i.ny())) == sadd(
            sadd(
                smul(ra, evaluation(i.products(i.block_inst.a[0]), r)),
                smul(rb, evaluation(i.products(i.block_inst.b[0]), r)),
            ),
            smul(rc, evaluation(i.products(i.block_inst.c[0]), r)),
        ),
{
    i.lemma_sizes();
    let z_len = 2 * i.width;
    let (rq, rx) = (r.take(i.nq() as int), r.skip(i.nq() as int));
    let ex = eq_evals(rx);
    assert forall|j: int| 0 <= j < rq.len() implies (#[trigger] rq[j]).canonical() by {
        assert(r[j].canonical());
    }
    lemma_execution_bound(i, rq);
    let zb = copies_bound(i.pairs(), eq_evals(rq), z_len);
    let (a, b, c) = (
        vector_product(i.inst.a[0], ex, z_len),
        vector_product(i.inst.b[0], ex, z_len),
        vector_product(i.inst.c[0], ex, z_len),
    );
    lemma_one_column(i.inst.a, ex, z_len);
    lemma_one_column(i.inst.b, ex, z_len);
    lemma_one_column(i.inst.c, ex, z_len);
    let w = weighted_three(ra, rb, rc, a, b, c);
    assert forall|y: int| 0 <= y < w.len() implies (#[trigger] w[y]).canonical() by {
        canonical_ops(sadd(smul(ra, a[y]), smul(rb, b[y])), smul(rc, c[y]));
    }
    let t = i.second_tables(r, ra, rb, rc);
    assert(t =~= seq![zb, w]);
    lemma_vertex_list(t, Comb::Quad, z_len);
    assert(Seq::new(z_len, |y: int| Comb::Quad.apply(vertex_column(t, y))) =~= pointwise(zb, w));
    lemma_dot_weighted(zb, ra, rb, rc, a, b, c);
    lemma_execution_matrix(i, i.inst.a[0], r);
    lemma_execution_matrix(i, i.inst.b[0], r);
    lemma_execution_matrix(i, i.inst.c[0], r);
}

/// The columns of one matrix.
proof fn lemma_one_column(m: Seq<Seq<Entry>>, ex: Seq<Scalar>, z_len: nat)
    requires
        m.len() == 1,
    ensures
        column_table(m, ex, z_len) == vector_product(m[0], ex, z_len),
{
    let rows = m.map_values(|x: Seq<Entry>| vector_product(x, ex, z_len));
    reveal_with_fuel(flat, 2);
    assert(rows.drop_last() =~= Seq::<Seq<Scalar>>::empty());
    assert(flat(rows) =~= rows[0]);
}

/// What the execution comes to in the second sum-check is the value that is
/// opened of it.
pub proof fn law_execution_opened(i: ConsisInput, rq: Seq<Scalar>, ry: Seq<Scalar>)
    requires
        i.wf(),
        execution_canonical(i),
        rq.len() == i.nq(),
        ry.len() == i.ny(),
        all_canonical(rq),
        all_canonical(ry),
    ensures
        evaluation(bound_front(flat(i.pairs()), rq, i.nq()), ry) == evaluation(
            i.combined(ry[0]),
            rq + ry.skip(1),
        ),
{
    i.lemma_sizes();
    lemma_pairs(i);
    law_execution_wraps(i);
    let z = i.pairs();
    let (width, n) = (i.width, i.executed.len());
    let r = rq + ry;
    lemma_uniform_len(z, 2 * width);
    lemma_flat_canonical(z);
    assert forall|j: int| 0 <= j < r.len() implies (#[trigger] r[j]).canonical() by {
        if j < rq.len() {
            assert(r[j] == rq[j]);
        } else {
            assert(r[j] == ry[j - rq.len()]);
        }
    }
    lemma_bound_front(flat(z), r, i.nq());
    assert(r.skip(i.nq() as int) =~= ry);
    assert(r.take(i.nq() as int) =~= rq.take(i.nq() as int));
    lemma_bound_front_same(flat(z), r, rq, i.nq());
    law_table_value(z, rq, ry);
    let next = Seq::new(
        n,
        |q: int|
            if q < n - 1 {
                i.executed[q + 1]
            } else {
                i.executed[0]
            },
    );
    let m = Seq::new(n, |q: int| mixed(i.executed[q], next[q], ry[0]));
    let vals = z.map_values(|row: Seq<Scalar>| evaluation(row, ry));
    let ry1 = ry.skip(1);
    let want = m.map_values(|row: Seq<Scalar>| evaluation(row, ry1));
    vstd::arithmetic::power2::lemma_pow2_unfold(i.ny());
    assert forall|q: int| 0 <= q < n implies (#[trigger] next[q]).len() == width by {
        assert(i.executed[q].len() == width && i.executed[0].len() == width);
        if q < n - 1 {
            assert(i.executed[q + 1].len() == width);
        }
    }
    assert forall|q: int| 0 <= q < n implies vals[q] == want[q] by {
        assert(z[q] == i.executed[q] + next[q]);
        assert(all_canonical(z[q]));
        assert(next[q].len() == width && i.executed[q].len() == width);
        lemma_joined_value(i.executed[q], next[q], ry);
    }
    assert(vals =~= want);
    assert forall|q: int| 0 <= q < m.len() implies (#[trigger] m[q]).len() == pow2(ry1.len()) by {
        assert(i.executed[q].len() == width);
    }
    law_table_value(m, rq, ry1);
    lemma_mixed_rows(i.executed, next, ry[0], width);
    // one block later, the first after the last
    let e = flat(i.executed);
    lemma_uniform_len(next, width);
    let shifted = e.skip(width as int) + e.take(width as int);
    assert forall|k: int| 0 <= k < shifted.len() implies shifted[k] == flat(next)[k] by {
        lemma_place(k, width, n);
        let (q, j) = (k / (width as int), k % (width as int));
        lemma_flat_index(next, width, q, j);
        if q < n - 1 {
            lemma_flat_index(i.executed, width, q + 1, j);
            assert((q + 1) * width + j == k + width) by (nonlinear_arith)
                requires
                    k == q * width + j,
            ;
        } else {
            lemma_flat_index(i.executed, width, 0, j);
            assert(k == (n - 1) * width + j);
            assert((n - 1) * width == n * width - width) by (nonlinear_arith);
        }
    }
    assert(shifted =~= flat(next));
}

/// What a proof about a satisfied execution claims is true, where the
/// constraints that are multiplied with the execution are those of the
/// execution: the first sum-check ends in the combination of the claims that
/// follow it, the joint claim is the sum that the second sum-check is about,
/// and that sum-check ends in the product of what its tables come to, the first
/// of which is the value that is opened.
pub proof fn law_execution_claims(i: ConsisInput, th: History, rh: History)
    requires
        i.wf(),
        execution_canonical(i),
        execution_satisfied(i),
        one_program(i),
    ensures
        ({
            let (s1, t1) = i.first_check(th, rh);
            let mid = i.middle(th, rh);
            let (s2, t2) = i.second_check(th, rh);
            let (l1, l2) = (leftovers(t1), leftovers(t2));
            let rq = s1.r.take(i.nq() as int);
            &&& s1.claim == smul(ssub(smul(l1[1], l1[2]), l1[3]), l1[0])
            &&& mid.claim == vertex_sum(
                i.second_tables(s1.r, mid.ra, mid.rb, mid.rc),
                Comb::Quad,
                pow2(i.ny()),
            )
            &&& s2.claim == smul(l2[0], l2[1])
            &&& l2[0] == evaluation(i.combined(s2.r[0]), rq + s2.r.skip(1))
        }),
{
    let n1 = i.nq() + i.nx();
    let t = i.first_tables(th);
    let g1 = i.gens.gens_sc.gens_1@;
    let g3 = i.gens.gens_sc.gens_3@;
    let g4 = i.gens.gens_sc.gens_4@;
    let h1 = challenges(th, "challenge_tau"@, n1).1;
    law_execution_first_claim(i, th);
    law_sumcheck_ends(szero(), szero(), n1, t, Comb::Additive, g1, g4, h1, rh);
    law_leftovers(szero(), szero(), n1, t, Comb::Additive, g1, g4, h1, rh);
    let (s1, t1) = i.first_check(th, rh);
    let l1 = leftovers(t1);
    mul_comm(l1[0], ssub(smul(l1[1], l1[2]), l1[3]));
    let mid = i.middle(th, rh);
    assert(mid.claim == sadd(
        sadd(smul(mid.ra, l1[1]), smul(mid.rb, l1[2])),
        smul(mid.rc, l1[3]),
    )) by {
        reveal(middle_prove);
    }
    let u = i.second_tables(s1.r, mid.ra, mid.rb, mid.rc);
    law_execution_second_claim(i, s1.r, mid.ra, mid.rb, mid.rc);
    assert(l1[1] == evaluation(t[1], s1.r));
    assert(l1[2] == evaluation(t[2], s1.r));
    assert(l1[3] == evaluation(t[3], s1.r));
    law_sumcheck_ends(mid.claim, mid.blind, i.ny(), u, Comb::Quad, g1, g3, mid.th, mid.rh);
    law_leftovers(mid.claim, mid.blind, i.ny(), u, Comb::Quad, g1, g3, mid.th, mid.rh);
    let (s2, t2) = i.second_check(th, rh);
    let rq = s1.r.take(i.nq() as int);
    assert forall|j: int| 0 <= j < rq.len() implies (#[trigger] rq[j]).canonical() by {
        assert(s1.r[j].canonical());
    }
    law_execution_opened(i, rq, s2.r);
    assert(leftovers(t2)[0] == evaluation(u[0], s2.r));
}

/// Each executed block stands before the next one, and the last before the
/// first. Mixed, each value counts `1 - r` times and the value one block later
/// `r` times, where the first block comes after the last.
pub proof fn law_execution_pairs(i: ConsisInput, r: Scalar, q: int, j: int)
    requires
        i.wf(),
        execution_canonical(i),
        0 <= q < i.executed.len(),
        0 <= j < i.width,
    ensures
        ({
            let n = i.executed.len() as int;
            let next = i.executed[if q + 1 == n {
                0
            } else {
                q + 1
            }];
            &&& i.pairs().len() == n
            &&& i.pairs()[q].len() == 2 * i.width
            &&& i.pairs()[q][j] == i.executed[q][j]
            &&& i.pairs()[q][i.width + j] == next[j]
            &&& i.combined(r)[q * i.width + j] == sadd(
                smul(ssub(sone(), r), i.executed[q][j]),
                smul(r, next[j]),
            )
        }),
{
    i.lemma_sizes();
    law_execution_wraps(i);
    lemma_pairs(i);
    let n = i.executed.len() as int;
    let w = i.width as int;
    let e = flat(i.executed);
    lemma_flat_index(i.executed, i.width, q, j);
    if q + 1 < n {
        lemma_flat_index(i.executed, i.width, q + 1, j);
        assert((q + 1) * w + j == q * w + j + w) by (nonlinear_arith);
    } else {
        lemma_flat_index(i.executed, i.width, 0, j);
        assert(q * w + w == n * w) by (nonlinear_arith)
            requires
                q + 1 == n,
        ;
    }
}

} // verus!
