//! What a verifier computes itself of the tables of a sum-check: the values of
//! the weights and of the matrices.
use crate::block_laws::lemma_weights;
use crate::dense_mlpoly::{bound_top, eq_evals, evaluation};
use crate::field::{mul_comm, mul_zero, neutral, sub_self};
use crate::poly_laws::law_value_by_binding;
use crate::r1csinstance::{all_fit, list_value};
use crate::scalar::{smul, Scalar};
use crate::sparse::{bilinear, vector_product, Entry};
use crate::sums::{all_canonical, dot_push, dot_scaled, scaled_list};
use crate::table_laws::{law_columns_weighted, law_table_value};
use crate::tables::{column_table, factor_line, factor_plane, factor_table, stretched};
use crate::vectors::{dot, flat, lemma_uniform_len, repeated};
use vstd::arithmetic::power2::pow2;
use vstd::prelude::*;

verus! {

/// The value of a scaled list.
proof fn lemma_scaled_value(c: Scalar, z: Seq<Scalar>, r: Seq<Scalar>)
    requires
        z.len() == pow2(r.len()),
    ensures
        evaluation(scaled_list(c, z), r) == smul(c, evaluation(z, r)),
{
    lemma_weights(r);
    dot_scaled(c, eq_evals(r), z);
}

/// The value of the products at a row.
proof fn lemma_plane_value(
    tp: Seq<Scalar>,
    tq: Seq<Scalar>,
    x: Scalar,
    rp: Seq<Scalar>,
    rq: Seq<Scalar>,
)
    requires
        tp.len() == pow2(rp.len()),
        tq.len() == pow2(rq.len()),
    ensures
        evaluation(flat(factor_plane(tp, tq, x)), rq + rp) == smul(
            smul(evaluation(tp, rp), evaluation(tq, rq)),
            x,
        ),
{
    let plane = factor_plane(tp, tq, x);
    let v = evaluation(tp, rp);
    law_table_value(plane, rq, rp);
    let vals = plane.map_values(|row: Seq<Scalar>| evaluation(row, rp));
    let want = scaled_list(x, scaled_list(v, tq));
    assert forall|q: int| 0 <= q < tq.len() implies vals[q] == want[q] by {
        let line = factor_line(tp, tq[q], x);
        let same = scaled_list(x, scaled_list(tq[q], tp));
        assert forall|p: int| 0 <= p < tp.len() implies line[p] == same[p] by {
            mul_comm(tp[p], tq[q]);
            mul_comm(smul(tq[q], tp[p]), x);
        }
        assert(line =~= same);
        lemma_scaled_value(x, scaled_list(tq[q], tp), rp);
        lemma_scaled_value(tq[q], tp, rp);
        mul_comm(tq[q], v);
    }
    assert(vals =~= want);
    lemma_scaled_value(x, scaled_list(v, tq), rq);
    lemma_scaled_value(v, tq, rq);
    mul_comm(x, smul(v, evaluation(tq, rq)));
}

/// The value of the table of products of three factors is the product of their
/// values.
pub proof fn law_factors_value(
    tp: Seq<Scalar>,
    tq: Seq<Scalar>,
    tx: Seq<Scalar>,
    rp: Seq<Scalar>,
    rq: Seq<Scalar>,
    rx: Seq<Scalar>,
)
    requires
        tp.len() == pow2(rp.len()),
        tq.len() == pow2(rq.len()),
        tx.len() == pow2(rx.len()),
    ensures
        evaluation(factor_table(tp, tq, tx), rx + (rq + rp)) == smul(
            smul(evaluation(tp, rp), evaluation(tq, rq)),
            evaluation(tx, rx),
        ),
{
    let planes = Seq::new(tx.len(), |x: int| flat(factor_plane(tp, tq, tx[x])));
    let c = smul(evaluation(tp, rp), evaluation(tq, rq));
    vstd::arithmetic::power2::lemma_pow2_adds(rq.len(), rp.len());
    assert forall|x: int| 0 <= x < planes.len() implies (#[trigger] planes[x]).len() == pow2(
        (rq + rp).len(),
    ) by {
        lemma_uniform_len(factor_plane(tp, tq, tx[x]), tp.len());
    }
    law_table_value(planes, rx, rq + rp);
    let vals = planes.map_values(|row: Seq<Scalar>| evaluation(row, rq + rp));
    assert forall|x: int| 0 <= x < tx.len() implies vals[x] == scaled_list(c, tx)[x] by {
        lemma_plane_value(tp, tq, tx[x], rp, rq);
    }
    assert(vals =~= scaled_list(c, tx));
    lemma_scaled_value(c, tx, rx);
}

/// The value of the columns of matrices under row weights is the value of the
/// matrices.
pub proof fn law_matrices_value(
    m: Seq<Seq<Entry>>,
    ex: Seq<Scalar>,
    rp: Seq<Scalar>,
    ry: Seq<Scalar>,
)
    requires
        m.len() == pow2(rp.len()),
        all_fit(m, ex.len(), pow2(ry.len())),
    ensures
        column_table(m, ex, pow2(ry.len())).len() == pow2(rp.len()) * pow2(ry.len()),
        evaluation(column_table(m, ex, pow2(ry.len())), rp + ry) == list_value(
            m,
            eq_evals(rp),
            ex,
            eq_evals(ry),
        ),
{
    let n = pow2(ry.len());
    let rows = m.map_values(|x: Seq<Entry>| vector_product(x, ex, n));
    lemma_uniform_len(rows, n);
    law_table_value(rows, rp, ry);
    lemma_weights(rp);
    lemma_weights(ry);
    let (ep, ey) = (eq_evals(rp), eq_evals(ry));
    let vals = rows.map_values(|row: Seq<Scalar>| evaluation(row, ry));
    let want = m.map_values(|x: Seq<Entry>| bilinear(x, ex, ey));
    assert forall|p: int| 0 <= p < m.len() implies vals[p] == want[p] by {
        law_columns_weighted(m[p], ex, ey);
    }
    assert(vals =~= want);
    lemma_list_value(m, ep, ex, ey);
}

/// The value of a list of matrices is the weighted sum of their values.
proof fn lemma_list_value(
    m: Seq<Seq<Entry>>,
    ep: Seq<Scalar>,
    ex: Seq<Scalar>,
    ey: Seq<Scalar>,
)
    requires
        m.len() <= ep.len(),
    ensures
        list_value(m, ep, ex, ey) == dot(
            ep.take(m.len() as int),
            m.map_values(|x: Seq<Entry>| bilinear(x, ex, ey)),
        ),
        m.len() == ep.len() ==> list_value(m, ep, ex, ey) == dot(
            ep,
            m.map_values(|x: Seq<Entry>| bilinear(x, ex, ey)),
        ),
    decreases m.len(),
{
    let vals = m.map_values(|x: Seq<Entry>| bilinear(x, ex, ey));
    let front = ep.take(m.len() as int);
    if m.len() > 0 {
        let m0 = m.drop_last();
        lemma_list_value(m0, ep, ex, ey);
        let v0 = m0.map_values(|x: Seq<Entry>| bilinear(x, ex, ey));
        let f0 = ep.take(m0.len() as int);
        assert(vals =~= v0.push(bilinear(m.last(), ex, ey)));
        assert(front =~= f0.push(ep[m.len() - 1]));
        dot_push(f0, ep[m.len() - 1], v0, bilinear(m.last(), ex, ey));
    }
    if m.len() == ep.len() {
        assert(front =~= ep);
    }
}

/// A polynomial with one value on the hypercube has it everywhere.
proof fn lemma_constant_value(c: Scalar, r: Seq<Scalar>)
    requires
        c.canonical(),
        all_canonical(r),
    ensures
        evaluation(repeated(c, pow2(r.len())), r) == c,
    decreases r.len(),
{
    let z = repeated(c, pow2(r.len()));
    if r.len() == 0 {
        vstd::arithmetic::power2::lemma2_to64();
        assert(r =~= Seq::<Scalar>::empty());
        crate::r1cs_laws::lemma_value_nowhere(z);
    } else {
        let rest = r.skip(1);
        assert(r[0].canonical());
        assert forall|j: int| 0 <= j < rest.len() implies (#[trigger] rest[j]).canonical() by {
            assert(r[j + 1].canonical());
        }
        vstd::arithmetic::power2::lemma_pow2_unfold(r.len());
        law_value_by_binding(z, r);
        sub_self(c);
        mul_comm(r[0], crate::scalar::szero());
        mul_zero(r[0]);
        neutral(c);
        assert(bound_top(z, r[0]) =~= repeated(c, pow2(rest.len())));
        lemma_constant_value(c, rest);
    }
}

/// The value of a list whose entries are repeated is the value of the list.
pub proof fn law_stretched_value(e: Seq<Scalar>, rp: Seq<Scalar>, ry: Seq<Scalar>)
    requires
        e.len() == pow2(rp.len()),
        all_canonical(e),
        all_canonical(ry),
    ensures
        evaluation(stretched(e, pow2(ry.len())), rp + ry) == evaluation(e, rp),
{
    let n = pow2(ry.len());
    let rows = e.map_values(|x: Scalar| repeated(x, n));
    law_table_value(rows, rp, ry);
    let vals = rows.map_values(|row: Seq<Scalar>| evaluation(row, ry));
    assert forall|p: int| 0 <= p < e.len() implies vals[p] == e[p] by {
        assert(e[p].canonical());
        lemma_constant_value(e[p], ry);
    }
    assert(vals =~= e);
}

} // verus!
