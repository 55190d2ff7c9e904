//! What a commitment to an instance commits to: its three matrices.
use crate::dense_mlpoly::{eq_evals, right_vars};
use crate::field::{distrib, mul_assoc, mul_comm, mul_zero, neutral};
use crate::math::{
    is_pow2, lemma_log2_monotone, lemma_log2_of_pow2, lemma_next_pow2, log2_up, next_pow2,
};
use crate::poly_laws::lemma_eq_factors;
use crate::r1csinstance::{all_fit, list_value, R1CS};
use crate::refusal_laws::law_rounded;
use crate::scalar::{lemma_constants, sadd, smul, szero, Scalar};
use crate::sparse::{bilinear, fits_in, Entry};
use crate::sparse_mlpoly::{
    audit_stamps, committable, instance_decommitment, mem_cells, mem_vars, occurrences, ops_len,
    ops_vars, stacked, R1CSCommitmentGens,
};
use vstd::arithmetic::power2::pow2;
use vstd::prelude::*;

verus! {

/// The number of entries of the first `p` matrices of a list.
pub open spec fn entries_before(l: Seq<Seq<Entry>>, p: nat) -> nat
    decreases p,
{
    if p == 0 {
        0
    } else {
        entries_before(l, (p - 1) as nat) + l[p - 1].len()
    }
}

/// One of the three lists of matrices: the left factors, the right ones, and
/// the products.
pub open spec fn matrix_list(i: R1CS, k: int) -> Seq<Seq<Entry>> {
    if k == 0 {
        i.a
    } else if k == 1 {
        i.b
    } else {
        i.c
    }
}

/// Matrices of a front of a list have as many entries before them.
proof fn lemma_before_same(l: Seq<Seq<Entry>>, m: Seq<Seq<Entry>>, p: nat)
    requires
        forall|q: int| 0 <= q < p ==> (#[trigger] l[q]).len() == m[q].len(),
    ensures
        entries_before(l, p) == entries_before(m, p),
    decreases p,
{
    if p > 0 {
        lemma_before_same(l, m, (p - 1) as nat);
        assert(l[p - 1].len() == m[p - 1].len());
    }
}

proof fn lemma_before_monotone(l: Seq<Seq<Entry>>, p: nat, q: nat)
    requires
        p <= q,
    ensures
        entries_before(l, p) <= entries_before(l, q),
    decreases q,
{
    if p < q {
        lemma_before_monotone(l, p, (q - 1) as nat);
    }
}

/// Matrices one below the other hold their entries one after the other, with
/// the rows moved down.
proof fn lemma_stacked(l: Seq<Seq<Entry>>, height: nat, p: int, e: int)
    requires
        0 <= p < l.len(),
        0 <= e < l[p].len(),
    ensures
        stacked(l, height).len() == entries_before(l, l.len()),
        entries_before(l, p as nat) + e < stacked(l, height).len(),
        stacked(l, height)[entries_before(l, p as nat) + e] == (
            (p * height + l[p][e].0) as usize,
            l[p][e].1,
            l[p][e].2,
        ),
    decreases l.len(),
{
    lemma_stacked_len(l, height);
    let l0 = l.drop_last();
    lemma_stacked_len(l0, height);
    lemma_before_same(l, l0, l0.len());
    lemma_before_same(l, l0, p as nat);
    if p < l.len() - 1 {
        lemma_stacked(l0, height, p, e);
        lemma_before_monotone(l, (p + 1) as nat, l0.len());
    }
}

proof fn lemma_stacked_len(l: Seq<Seq<Entry>>, height: nat)
    ensures
        stacked(l, height).len() == entries_before(l, l.len()),
    decreases l.len(),
{
    if l.len() > 0 {
        lemma_stacked_len(l.drop_last(), height);
        lemma_before_same(l, l.drop_last(), l.drop_last().len());
    }
}

proof fn lemma_ops_len(i: R1CS, k: int)
    requires
        0 <= k < 3,
    ensures
        stacked(matrix_list(i, k), i.num_cons).len() <= ops_len(i),
{
    let (a, b, c) = (
        stacked(i.a, i.num_cons).len(),
        stacked(i.b, i.num_cons).len(),
        stacked(i.c, i.num_cons).len(),
    );
    let most = if a >= b && a >= c {
        a
    } else if b >= c {
        b
    } else {
        c
    };
    lemma_next_pow2(most);
}

/// What opens a commitment to an instance holds each entry of each matrix: the
/// `e`-th entry of instance `p` in the `k`-th list of matrices stands behind the
/// reads of the lists before it and the entries of the instances before it, with
/// its row moved down by the instances before it, its column and its value.
pub proof fn law_entries_opened(i: R1CS, k: int, p: int, e: int)
    requires
        i.in_range(),
        i.num_instances * i.num_cons <= usize::MAX,
        0 <= k < 3,
        0 <= p < i.a.len(),
        0 <= e < matrix_list(i, k)[p].len(),
    ensures
        ({
            let d = instance_decommitment(i);
            let (row, col, value) = matrix_list(i, k)[p][e];
            let at = k * ops_len(i) + entries_before(matrix_list(i, k), p as nat) + e;
            &&& d.row.ops.len() == 3 * ops_len(i)
            &&& d.col.ops.len() == 3 * ops_len(i)
            &&& d.val.len() == 3 * ops_len(i)
            &&& entries_before(matrix_list(i, k), p as nat) + e < ops_len(i)
            &&& d.row.ops[at] == p * i.num_cons + row
            &&& d.col.ops[at] == col
            &&& d.val[at] == value
        }),
{
    let l = matrix_list(i, k);
    lemma_stacked(l, i.num_cons, p, e);
    lemma_ops_len(i, k);
    assert(fits_in(l[p], i.num_cons, i.num_vars));
    assert(l[p][e].0 < i.num_cons);
    assert(p * i.num_cons + l[p][e].0 < i.num_instances * i.num_cons) by (nonlinear_arith)
        requires
            0 <= p < i.num_instances,
            l[p][e].0 < i.num_cons,
    ;
    let n = ops_len(i);
    let j = entries_before(l, p as nat) + e;
    assert(0 <= p * i.num_cons) by (nonlinear_arith)
        requires
            0 <= p,
    ;
    assert(k == 0 || k == 1 || k == 2);
}

/// Behind the entries of a list of matrices come reads of the first cell with
/// the value zero.
pub proof fn law_filling_opened(i: R1CS, k: int, j: int)
    requires
        0 <= k < 3,
        entries_before(matrix_list(i, k), matrix_list(i, k).len()) <= j < ops_len(i),
    ensures
        ({
            let d = instance_decommitment(i);
            let at = k * ops_len(i) + j;
            d.row.ops[at] == 0 && d.col.ops[at] == 0 && d.val[at] == szero()
        }),
{
    lemma_stacked_len(matrix_list(i, k), i.num_cons);
    assert(k == 0 || k == 1 || k == 2);
}

/// Whether two lists of matrices have as many matrices with as many entries.
pub open spec fn same_counts(l: Seq<Seq<Entry>>, m: Seq<Seq<Entry>>) -> bool {
    &&& l.len() == m.len()
    &&& forall|p: int| 0 <= p < l.len() ==> (#[trigger] l[p]).len() == m[p].len()
}

/// What opens the commitment to an instance determines its matrices: instances
/// with as many constraints and entries whose rows, columns and values open
/// alike are the same.
pub proof fn law_opening_determines(i: R1CS, j: R1CS)
    requires
        i.in_range(),
        j.in_range(),
        i.num_instances * i.num_cons <= usize::MAX,
        j.num_instances * j.num_cons <= usize::MAX,
        i.num_cons == j.num_cons,
        same_counts(i.a, j.a),
        same_counts(i.b, j.b),
        same_counts(i.c, j.c),
        instance_decommitment(i).row.ops == instance_decommitment(j).row.ops,
        instance_decommitment(i).col.ops == instance_decommitment(j).col.ops,
        instance_decommitment(i).val == instance_decommitment(j).val,
    ensures
        i.a == j.a,
        i.b == j.b,
        i.c == j.c,
{
    lemma_same_list(i, j, 0);
    lemma_same_list(i, j, 1);
    lemma_same_list(i, j, 2);
}

proof fn lemma_same_list(i: R1CS, j: R1CS, k: int)
    requires
        i.in_range(),
        j.in_range(),
        i.num_instances * i.num_cons <= usize::MAX,
        j.num_instances * j.num_cons <= usize::MAX,
        i.num_cons == j.num_cons,
        same_counts(i.a, j.a),
        same_counts(i.b, j.b),
        same_counts(i.c, j.c),
        instance_decommitment(i).row.ops == instance_decommitment(j).row.ops,
        instance_decommitment(i).col.ops == instance_decommitment(j).col.ops,
        instance_decommitment(i).val == instance_decommitment(j).val,
        0 <= k < 3,
    ensures
        matrix_list(i, k) == matrix_list(j, k),
{
    let (l, m) = (matrix_list(i, k), matrix_list(j, k));
    assert(ops_len(i) == ops_len(j)) by {
        lemma_stacked_len(i.a, i.num_cons);
        lemma_stacked_len(j.a, j.num_cons);
        lemma_before_same(i.a, j.a, i.a.len());
        lemma_stacked_len(i.b, i.num_cons);
        lemma_stacked_len(j.b, j.num_cons);
        lemma_before_same(i.b, j.b, i.b.len());
        lemma_stacked_len(i.c, i.num_cons);
        lemma_stacked_len(j.c, j.num_cons);
        lemma_before_same(i.c, j.c, i.c.len());
    }
    assert(same_counts(l, m));
    assert forall|p: int| 0 <= p < l.len() implies l[p] == m[p] by {
        lemma_before_same(l, m, p as nat);
        assert(l[p].len() == m[p].len());
        assert forall|e: int| 0 <= e < l[p].len() implies l[p][e] == m[p][e] by {
            law_entries_opened(i, k, p, e);
            law_entries_opened(j, k, p, e);
        }
        assert(l[p] =~= m[p]);
    }
    assert(l =~= m);
}

/// The sum over `n` reads from a position on: the weights of the row and of the
/// column of each, times its value.
pub open spec fn reads_value(
    row: Seq<nat>,
    col: Seq<nat>,
    val: Seq<Scalar>,
    from: int,
    n: nat,
    ex: Seq<Scalar>,
    ey: Seq<Scalar>,
) -> Scalar
    decreases n,
{
    if n == 0 {
        szero()
    } else {
        let at = from + n - 1;
        sadd(
            reads_value(row, col, val, from, (n - 1) as nat, ex, ey),
            smul(smul(ex[row[at] as int], ey[col[at] as int]), val[at]),
        )
    }
}

/// The reads of a list of matrices are worth, at a point, what the matrices are
/// worth there, with the coordinates of the instance in front of those of the
/// row.
pub proof fn law_reads_evaluate(
    i: R1CS,
    k: int,
    rp: Seq<Scalar>,
    rx: Seq<Scalar>,
    ry: Seq<Scalar>,
)
    requires
        i.in_range(),
        i.num_instances * i.num_cons <= usize::MAX,
        0 <= k < 3,
        i.num_cons == pow2(rx.len()),
        i.a.len() <= pow2(rp.len()),
    ensures
        ({
            let d = instance_decommitment(i);
            reads_value(
                d.row.ops,
                d.col.ops,
                d.val,
                k * ops_len(i),
                ops_len(i),
                eq_evals(rp + rx),
                eq_evals(ry),
            ) == list_value(matrix_list(i, k), eq_evals(rp), eq_evals(rx), eq_evals(ry))
        }),
{
    let l = matrix_list(i, k);
    let s = stacked(l, i.num_cons);
    let (ex, ey) = (eq_evals(rp + rx), eq_evals(ry));
    lemma_ops_len(i, k);
    lemma_reads_front(i, k, ex, ey, ops_len(i));
    assert(s.take(s.len() as int) =~= s);
    assert(l.len() * i.num_cons <= i.num_instances * i.num_cons) by (nonlinear_arith)
        requires
            l.len() <= i.num_instances,
    ;
    lemma_stacked_value(l, i.num_vars, rp, rx, ey);
}

/// The reads of a list of matrices are its entries, and then reads of the first
/// cell.
proof fn lemma_read_at(i: R1CS, k: int, j: int)
    requires
        0 <= k < 3,
        0 <= j < ops_len(i),
    ensures
        ({
            let d = instance_decommitment(i);
            let s = stacked(matrix_list(i, k), i.num_cons);
            let at = k * ops_len(i) + j;
            &&& d.row.ops[at] == if j < s.len() {
                s[j].0 as nat
            } else {
                0
            }
            &&& d.col.ops[at] == if j < s.len() {
                s[j].1 as nat
            } else {
                0
            }
            &&& d.val[at] == if j < s.len() {
                s[j].2
            } else {
                szero()
            }
        }),
{
    if k == 0 {
        assert(k * ops_len(i) == 0);
    } else if k == 1 {
        assert(k * ops_len(i) == ops_len(i));
    } else {
        assert(k * ops_len(i) == 2 * ops_len(i));
    }
}

/// The value of a list of reads is that of the entries, and of nothing more.
proof fn lemma_reads_front(i: R1CS, k: int, ex: Seq<Scalar>, ey: Seq<Scalar>, n: nat)
    requires
        0 <= k < 3,
        n <= ops_len(i),
    ensures
        ({
            let d = instance_decommitment(i);
            let s = stacked(matrix_list(i, k), i.num_cons);
            let m = if n <= s.len() {
                n
            } else {
                s.len()
            };
            reads_value(d.row.ops, d.col.ops, d.val, k * ops_len(i), n, ex, ey) == bilinear(
                s.take(m as int),
                ex,
                ey,
            )
        }),
    decreases n,
{
    let s = stacked(matrix_list(i, k), i.num_cons);
    lemma_ops_len(i, k);
    if n == 0 {
        assert(s.take(0) =~= Seq::<Entry>::empty());
    } else {
        let p = (n - 1) as nat;
        lemma_reads_front(i, k, ex, ey, p);
        lemma_read_at(i, k, p as int);
        assert(k * ops_len(i) + n - 1 == k * ops_len(i) + p);
        if n <= s.len() {
            let t = s.take(n as int);
            assert(t.drop_last() =~= s.take(p as int));
            assert(t.last() == s[p as int]);
        } else {
            let w = smul(ex[0], ey[0]);
            mul_comm(w, szero());
            mul_zero(w);
            assert(s.take(s.len() as int) =~= s);
            lemma_bilinear_canonical(s, ex, ey);
            neutral(bilinear(s, ex, ey));
        }
    }
}

proof fn lemma_bilinear_canonical(m: Seq<Entry>, w: Seq<Scalar>, z: Seq<Scalar>)
    ensures
        bilinear(m, w, z).canonical(),
{
    lemma_constants();
    if m.len() > 0 {
        let (x, y, v) = m.last();
        crate::scalar::lemma_sadd_view(
            bilinear(m.drop_last(), w, z),
            smul(smul(w[x as int], z[y as int]), v),
        );
    }
}

/// The value of matrices one below the other is the weighted sum of their
/// values.
proof fn lemma_stacked_value(
    l: Seq<Seq<Entry>>,
    width: nat,
    rp: Seq<Scalar>,
    rx: Seq<Scalar>,
    ey: Seq<Scalar>,
)
    requires
        all_fit(l, pow2(rx.len()), width),
        l.len() <= pow2(rp.len()),
        l.len() * pow2(rx.len()) <= usize::MAX,
    ensures
        bilinear(stacked(l, pow2(rx.len())), eq_evals(rp + rx), ey) == list_value(
            l,
            eq_evals(rp),
            eq_evals(rx),
            ey,
        ),
    decreases l.len(),
{
    let h = pow2(rx.len());
    if l.len() > 0 {
        let l0 = l.drop_last();
        let m = l.last();
        assert(m == l[l.len() - 1]);
        assert(fits_in(m, h, width));
        assert forall|q: int| 0 <= q < l0.len() implies fits_in(#[trigger] l0[q], h, width) by {
            assert(fits_in(l[q], h, width));
        }
        assert(l0.len() * h + h == l.len() * h) by (nonlinear_arith)
            requires
                l0.len() + 1 == l.len(),
        ;
        lemma_stacked_value(l0, width, rp, rx, ey);
        lemma_moved_value(stacked(l0, h), m, l0.len(), width, rp, rx, ey, m.len());
        assert(m.take(m.len() as int) =~= m);
        assert(stacked(l, h) =~= stacked(l0, h) + m.map_values(
            |e: Entry| ((l0.len() * h + e.0) as usize, e.1, e.2),
        ));
    }
}

/// A matrix whose rows are moved down counts with the weight of its instance.
proof fn lemma_moved_value(
    before: Seq<Entry>,
    m: Seq<Entry>,
    p: nat,
    width: nat,
    rp: Seq<Scalar>,
    rx: Seq<Scalar>,
    ey: Seq<Scalar>,
    k: nat,
)
    requires
        fits_in(m, pow2(rx.len()), width),
        p < pow2(rp.len()),
        p * pow2(rx.len()) + pow2(rx.len()) <= usize::MAX,
        k <= m.len(),
    ensures
        bilinear(
            before + m.take(k as int).map_values(
                |e: Entry| ((p * pow2(rx.len()) + e.0) as usize, e.1, e.2),
            ),
            eq_evals(rp + rx),
            ey,
        ) == sadd(
            bilinear(before, eq_evals(rp + rx), ey),
            smul(eq_evals(rp)[p as int], bilinear(m.take(k as int), eq_evals(rx), ey)),
        ),
    decreases k,
{
    let h = pow2(rx.len());
    let (e, ep, ex) = (eq_evals(rp + rx), eq_evals(rp), eq_evals(rx));
    let shift = |e: Entry| ((p * h + e.0) as usize, e.1, e.2);
    let base = bilinear(before, e, ey);
    lemma_bilinear_canonical(before, e, ey);
    if k == 0 {
        assert(before + m.take(0).map_values(shift) =~= before);
        assert(m.take(0) =~= Seq::<Entry>::empty());
        mul_comm(ep[p as int], szero());
        mul_zero(ep[p as int]);
        neutral(base);
    } else {
        let q = (k - 1) as nat;
        lemma_moved_value(before, m, p, width, rp, rx, ey, q);
        let (t, t0) = (m.take(k as int), m.take(q as int));
        assert(t.drop_last() =~= t0);
        let all = before + t.map_values(shift);
        assert(all.drop_last() =~= before + t0.map_values(shift));
        let (x, y, v) = m[q as int];
        assert(m[q as int].0 < h);
        assert(all.last() == ((p * h + x) as usize, y, v));
        lemma_eq_factors(rp, rx, p as int, x as int);
        assert(p * h >= 0) by (nonlinear_arith)
            requires
                p >= 0,
                h >= 0,
        ;
        let at = ((p * h + x) as usize) as int;
        assert(e[at] == smul(ep[p as int], ex[x as int]));
        let (w, a, b) = (
            ep[p as int],
            bilinear(t0, ex, ey),
            smul(smul(ex[x as int], ey[y as int]), v),
        );
        mul_assoc(w, ex[x as int], ey[y as int]);
        mul_assoc(w, smul(ex[x as int], ey[y as int]), v);
        distrib(w, a, b);
        crate::field::add_assoc(base, smul(w, a), smul(w, b));
    }
}

/// Where the polynomial of the reads holds what: rows, their stamps, columns,
/// their stamps and values, each for all three lists of matrices, and then
/// zeros.
pub proof fn law_reads_laid_out(i: R1CS, j: int)
    requires
        0 <= j < 3 * ops_len(i),
    ensures
        ({
            let d = instance_decommitment(i);
            let n = 3 * ops_len(i);
            &&& d.ops.len() == next_pow2(5 * n)
            &&& d.ops[j] == Scalar::of(d.row.ops[j])
            &&& d.ops[n + j] == Scalar::of(d.row.reads[j])
            &&& d.ops[2 * n + j] == Scalar::of(d.col.ops[j])
            &&& d.ops[3 * n + j] == Scalar::of(d.col.reads[j])
            &&& d.ops[4 * n + j] == d.val[j]
            &&& forall|x: int| 5 * n <= x < d.ops.len() ==> #[trigger] d.ops[x] == szero()
        }),
{
    lemma_next_pow2(15 * ops_len(i));
}

/// Where the polynomial of the final stamps holds what: those of the rows, and
/// then those of the columns.
pub proof fn law_stamps_laid_out(i: R1CS, a: int)
    requires
        0 <= a < mem_cells(i),
    ensures
        ({
            let d = instance_decommitment(i);
            &&& d.mem.len() == 2 * mem_cells(i)
            &&& d.mem[a] == Scalar::of(d.row.audits[a])
            &&& d.mem[mem_cells(i) + a] == Scalar::of(d.col.audits[a])
        }),
{
}

/// The sum of numbers.
pub open spec fn count_all(s: Seq<nat>) -> nat
    decreases s.len(),
{
    if s.len() == 0 {
        0
    } else {
        count_all(s.drop_last()) + s.last()
    }
}

proof fn lemma_occurrences_grow(ops: Seq<usize>, a: usize, i: int, j: int)
    requires
        0 <= i <= j <= ops.len(),
    ensures
        occurrences(ops.take(i), a) <= occurrences(ops.take(j), a),
        i < j && ops[i] == a ==> occurrences(ops.take(i), a) < occurrences(ops.take(j), a),
    decreases j - i,
{
    if i < j {
        let t = ops.take(i + 1);
        assert(t.drop_last() =~= ops.take(i));
        assert(t.last() == ops[i]);
        lemma_occurrences_grow(ops, a, i + 1, j);
    }
}

proof fn lemma_audits(ops: Seq<usize>, cells: nat)
    requires
        cells <= usize::MAX,
        forall|i: int| 0 <= i < ops.len() ==> #[trigger] ops[i] < cells,
    ensures
        count_all(audit_stamps(ops, cells)) == ops.len(),
    decreases ops.len(),
{
    let s = audit_stamps(ops, cells);
    if ops.len() == 0 {
        lemma_no_counts(s);
    } else {
        let o = ops.drop_last();
        assert forall|i: int| 0 <= i < o.len() implies #[trigger] o[i] < cells by {
            assert(ops[i] < cells);
        }
        lemma_audits(o, cells);
        let t = audit_stamps(o, cells);
        let x = ops[ops.len() - 1] as int;
        assert(ops[ops.len() - 1] < cells);
        assert forall|a: int| 0 <= a < cells implies s[a] == if a == x {
            t[a] + 1
        } else {
            t[a]
        } by {}
        lemma_one_more(t, s, x);
    }
}

proof fn lemma_no_counts(s: Seq<nat>)
    requires
        forall|i: int| 0 <= i < s.len() ==> s[i] == 0,
    ensures
        count_all(s) == 0,
    decreases s.len(),
{
    if s.len() > 0 {
        lemma_no_counts(s.drop_last());
    }
}

proof fn lemma_one_more(t: Seq<nat>, s: Seq<nat>, x: int)
    requires
        t.len() == s.len(),
        0 <= x < t.len(),
        forall|a: int|
            0 <= a < t.len() ==> #[trigger] s[a] == if a == x {
                t[a] + 1
            } else {
                t[a]
            },
    ensures
        count_all(s) == count_all(t) + 1,
    decreases t.len(),
{
    let (t0, s0) = (t.drop_last(), s.drop_last());
    if x < t.len() - 1 {
        lemma_one_more(t0, s0, x);
    } else {
        assert(t0 =~= s0);
    }
}

/// The stamps of reads: a later read of a cell has a larger stamp, each stamp is
/// below the final one of its cell, and the final stamps add up to the number of
/// reads. So the reads of a cell are numbered from zero on, without gaps.
pub proof fn law_stamps_number_reads(ops: Seq<usize>, cells: nat, i: int, j: int)
    requires
        cells <= usize::MAX,
        forall|k: int| 0 <= k < ops.len() ==> #[trigger] ops[k] < cells,
        0 <= i < j < ops.len(),
    ensures
        ({
            let s = crate::sparse_mlpoly::stamped(ops, cells);
            &&& s.ops.len() == ops.len()
            &&& s.ops[i] == ops[i]
            &&& s.reads.len() == ops.len()
            &&& s.audits.len() == cells
            &&& ops[i] == ops[j] ==> s.reads[i] < s.reads[j]
            &&& s.reads[i] < s.audits[ops[i] as int]
            &&& s.reads[j] < s.audits[ops[j] as int]
            &&& count_all(s.audits) == ops.len()
        }),
{
    lemma_occurrences_grow(ops, ops[i], i, j);
    lemma_occurrences_grow(ops, ops[i], i, ops.len() as int);
    lemma_occurrences_grow(ops, ops[j], j, ops.len() as int);
    assert(ops.take(ops.len() as int) =~= ops);
    lemma_audits(ops, cells);
}

/// The generators that are derived for a size suffice to commit to any instance
/// of that size with no more entries in any of its three matrices than stated.
pub proof fn law_parameters_suffice(i: R1CS, gens: R1CSCommitmentGens, num_nz_entries: nat)
    requires
        i.in_range(),
        is_pow2(i.num_instances),
        is_pow2(i.num_cons),
        is_pow2(i.num_vars),
        2 * mem_cells(i) <= usize::MAX,
        16 * next_pow2(num_nz_entries) <= usize::MAX,
        entries_before(i.a, i.a.len()) <= num_nz_entries,
        entries_before(i.b, i.b.len()) <= num_nz_entries,
        entries_before(i.c, i.c.len()) <= num_nz_entries,
        gens.gens_ops.fits(ops_vars(num_nz_entries)),
        gens.gens_mem.fits(mem_vars(i.num_instances, i.num_cons, i.num_vars)),
    ensures
        committable(i, gens),
{
    let n = ops_len(i);
    let k = log2_up(n);
    lemma_stacked_len(i.a, i.num_cons);
    lemma_stacked_len(i.b, i.num_cons);
    lemma_stacked_len(i.c, i.num_cons);
    let (a, b, c) = (
        entries_before(i.a, i.a.len()),
        entries_before(i.b, i.b.len()),
        entries_before(i.c, i.c.len()),
    );
    let most = if a >= b && a >= c {
        a
    } else if b >= c {
        b
    } else {
        c
    };
    assert(n == next_pow2(most));
    lemma_log2_monotone(most, num_nz_entries);
    lemma_log2_of_pow2(log2_up(most));
    lemma_log2_of_pow2(log2_up(num_nz_entries));
    assert(k <= log2_up(next_pow2(num_nz_entries)));
    // fifteen times a power of two is below sixteen times it
    vstd::arithmetic::power2::lemma_pow2_adds(k, 4);
    vstd::arithmetic::power2::lemma2_to64();
    assert(pow2(k) == n);
    assert(pow2(k + 4) == 16 * n);
    lemma_log2_monotone(15 * n, 16 * n);
    lemma_log2_of_pow2(k + 4);
    let e = log2_up(15 * n);
    lemma_log2_of_pow2(e);
    lemma_pow2_up(e, k + 4);
    lemma_pow2_up(k + 4, ops_vars(num_nz_entries));
    lemma_pow2_up(log2_up(num_nz_entries) + 4, ops_vars(num_nz_entries));
    vstd::arithmetic::power2::lemma_pow2_adds(log2_up(num_nz_entries), 4);
    assert(next_pow2(15 * n) <= usize::MAX) by {
        lemma_pow2_up(k + 4, log2_up(num_nz_entries) + 4);
    }
    lemma_right_up(log2_up(next_pow2(15 * n)), ops_vars(num_nz_entries));
    // the cells
    let (x, y) = (log2_up(i.num_instances), log2_up(i.num_cons));
    vstd::arithmetic::power2::lemma_pow2_adds(x, y);
    assert(pow2(x + y) == i.num_instances * i.num_cons);
    let z = log2_up(i.num_vars);
    let m = if x + y > z {
        x + y
    } else {
        z
    };
    assert(mem_cells(i) == pow2(m)) by {
        if x + y > z {
            vstd::arithmetic::power2::lemma_pow2_strictly_increases(z, x + y);
        } else {
            lemma_pow2_up(x + y, z);
        }
    }
    vstd::arithmetic::power2::lemma_pow2_unfold(m + 1);
    lemma_log2_of_pow2(m + 1);
    assert(log2_up(2 * mem_cells(i)) == mem_vars(i.num_instances, i.num_cons, i.num_vars));
}

proof fn lemma_pow2_up(a: nat, b: nat)
    requires
        a <= b,
    ensures
        pow2(a) <= pow2(b),
{
    if a < b {
        vstd::arithmetic::power2::lemma_pow2_strictly_increases(a, b);
    }
}

proof fn lemma_right_up(a: nat, b: nat)
    requires
        a <= b,
    ensures
        pow2(right_vars(a)) <= pow2(right_vars(b)),
{
    lemma_pow2_up(right_vars(a), right_vars(b));
}

/// Each matrix is read as often as the least power of two says that is no
/// smaller than the number of entries of any of the three matrices.
pub proof fn law_reads_counted(i: R1CS, k: nat)
    requires
        entries_before(i.a, i.a.len()) <= pow2(k),
        entries_before(i.b, i.b.len()) <= pow2(k),
        entries_before(i.c, i.c.len()) <= pow2(k),
    ensures
        entries_before(i.a, i.a.len()) <= ops_len(i) <= pow2(k),
        entries_before(i.b, i.b.len()) <= ops_len(i),
        entries_before(i.c, i.c.len()) <= ops_len(i),
        exists|j: nat| ops_len(i) == pow2(j),
{
    lemma_stacked_len(i.a, i.num_cons);
    lemma_stacked_len(i.b, i.num_cons);
    lemma_stacked_len(i.c, i.num_cons);
    let (a, b, c) = (
        entries_before(i.a, i.a.len()),
        entries_before(i.b, i.b.len()),
        entries_before(i.c, i.c.len()),
    );
    let most = if a >= b && a >= c {
        a
    } else if b >= c {
        b
    } else {
        c
    };
    law_rounded(most, k);
}

} // verus!
