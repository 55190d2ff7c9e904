//! The witnesses that tie blocks, execution order and memory together.
//!
//! Rows of values are combined into one scalar each by powers of a challenge,
//! and the scalars of valid rows are multiplied from the last row to the first.
use crate::scalar::{sadd, smul, sone, ssub, szero, Scalar};
use crate::vectors::{repeated, rows, sum, sum_of, zeros};
use vstd::prelude::*;

verus! {

/// A power of a scalar.
pub open spec fn power(r: Scalar, k: nat) -> Scalar
    decreases k,
{
    if k == 0 {
        sone()
    } else if k == 1 {
        r
    } else {
        smul(power(r, (k - 1) as nat), r)
    }
}

/// The powers of a scalar, the first `n` of them.
pub open spec fn powers(r: Scalar, n: nat) -> Seq<Scalar> {
    Seq::new(n, |j: int| power(r, j as nat))
}

/// The shared witness: the challenge `tau`, then the powers of `r` from the
/// first on.
pub open spec fn shared_row(tau: Scalar, r: Scalar, n: nat) -> Seq<Scalar> {
    powers(r, n).update(0, tau)
}

/// A row with each value weighted by its power.
pub open spec fn weighted(row: Seq<Scalar>, r: Scalar) -> Seq<Scalar> {
    Seq::new(row.len(), |j: int| smul(power(r, j as nat), row[j]))
}

/// The rows of a matrix, weighted.
pub open spec fn weighted_rows(m: Seq<Seq<Scalar>>, r: Scalar) -> Seq<Seq<Scalar>> {
    m.map_values(|row: Seq<Scalar>| weighted(row, r))
}

/// The rows of matrices, weighted.
pub open spec fn weighted_mats(m: Seq<Seq<Seq<Scalar>>>, r: Scalar) -> Seq<Seq<Seq<Scalar>>> {
    m.map_values(|x: Seq<Seq<Scalar>>| weighted_rows(x, r))
}

/// The factor of a row: the difference of `tau` and its weighted sum where
/// the row is valid.
pub open spec fn root(row: Seq<Scalar>, tau: Scalar, r: Scalar) -> Scalar {
    smul(row[0], ssub(tau, sum(weighted(row, r))))
}

/// The product of the factors from row `q` on, as far as rows are valid. `v`
/// holds the valid bits and `x` the factors.
pub open spec fn running(v: Seq<Scalar>, x: Seq<Scalar>, q: int) -> Scalar
    decreases v.len() - q,
{
    if q >= v.len() - 1 {
        x[q]
    } else {
        smul(
            x[q],
            ssub(sadd(smul(v[q + 1], running(v, x, q + 1)), sone()), v[q + 1]),
        )
    }
}

/// A row of an accumulator: the valid bit, the factor, the product where the
/// row is valid, and the product.
pub open spec fn accumulator_row(
    base: Seq<Scalar>,
    v: Seq<Scalar>,
    x: Seq<Scalar>,
    q: int,
) -> Seq<Scalar> {
    base.update(0, v[q]).update(1, x[q]).update(2, smul(v[q], running(v, x, q))).update(
        3,
        running(v, x, q),
    )
}

/// The valid bits of rows.
pub open spec fn valid_bits(m: Seq<Seq<Scalar>>) -> Seq<Scalar> {
    m.map_values(|row: Seq<Scalar>| row[0])
}

/// The factors of rows.
pub open spec fn roots(m: Seq<Seq<Scalar>>, tau: Scalar, r: Scalar) -> Seq<Scalar> {
    m.map_values(|row: Seq<Scalar>| root(row, tau, r))
}

/// The accumulator of the first `n` rows of a matrix.
pub open spec fn permutation_rows(
    m: Seq<Seq<Scalar>>,
    n: nat,
    tau: Scalar,
    r: Scalar,
    num_vars: nat,
) -> Seq<Seq<Scalar>> {
    let v = valid_bits(m.take(n as int));
    let x = roots(m.take(n as int), tau, r);
    Seq::new(n, |q: int| accumulator_row(repeated(szero(), num_vars), v, x, q))
}

/// The combination of a read address and its value.
pub open spec fn mem_term(mems: Seq<Scalar>, tau: Scalar, r: Scalar, k: nat) -> Scalar {
    ssub(ssub(tau, mems[2 * k as int + 4]), smul(r, mems[2 * k as int + 5]))
}

/// The product of the terms of the first `k` accesses, from the valid bit on.
pub open spec fn mem_product(
    mems: Seq<Scalar>,
    valid: Scalar,
    tau: Scalar,
    r: Scalar,
    k: nat,
) -> Scalar
    decreases k,
{
    if k == 0 {
        valid
    } else {
        smul(
            mem_product(mems, valid, tau, r, (k - 1) as nat),
            mem_term(mems, tau, r, (k - 1) as nat),
        )
    }
}

/// The part of a memory row that holds the accesses: for each the weighted
/// value and the product so far.
pub open spec fn mem_base(
    mems: Seq<Scalar>,
    valid: Scalar,
    tau: Scalar,
    r: Scalar,
    accesses: nat,
    num_vars: nat,
) -> Seq<Scalar> {
    Seq::new(
        num_vars,
        |i: int|
            if 4 <= i < 4 + 2 * accesses {
                if i % 2 == 0 {
                    smul(r, mems[i + 1])
                } else {
                    mem_product(mems, valid, tau, r, ((i - 5) / 2 + 1) as nat)
                }
            } else {
                szero()
            },
    )
}

/// The factors of the memory rows.
pub open spec fn mem_roots(
    mems: Seq<Seq<Scalar>>,
    v: Seq<Scalar>,
    tau: Scalar,
    r: Scalar,
    accesses: nat,
) -> Seq<Scalar> {
    Seq::new(v.len(), |q: int| mem_product(mems[q], v[q], tau, r, accesses))
}

/// The memory witness of the first `n` proofs of an instance.
pub open spec fn memory_rows(
    inputs: Seq<Seq<Scalar>>,
    mems: Seq<Seq<Scalar>>,
    n: nat,
    tau: Scalar,
    r: Scalar,
    accesses: nat,
    num_vars: nat,
) -> Seq<Seq<Scalar>> {
    let v = valid_bits(inputs.take(n as int));
    let x = mem_roots(mems, v, tau, r, accesses);
    Seq::new(
        n,
        |q: int|
            accumulator_row(mem_base(mems[q], v[q], tau, r, accesses, num_vars), v, x, q),
    )
}

/// The weighted halves of a row, inputs and outputs each with weights of
/// their own, without the leading values.
pub open spec fn half_weighted(row: Seq<Scalar>, r: Scalar, cutoff: nat, num_vars: nat) -> Seq<
    Scalar,
> {
    Seq::new(
        num_vars,
        |i: int|
            if 1 <= i < cutoff {
                smul(power(r, i as nat), row[i])
            } else if cutoff < i < 2 * cutoff {
                smul(power(r, (i - cutoff) as nat), row[i])
            } else {
                szero()
            },
    )
}

/// The sum of a scalar and of the first entries of a list, from the second on.
pub open spec fn sum_onto(first: Scalar, s: Seq<Scalar>, k: nat) -> Scalar
    decreases k,
{
    if k <= 1 {
        first
    } else {
        sadd(sum_onto(first, s, (k - 1) as nat), s[k - 1])
    }
}

/// The combination of one half of a row: of the inputs from 0, of the outputs
/// from the cutoff on.
pub open spec fn half_sum(
    row: Seq<Scalar>,
    r: Scalar,
    cutoff: nat,
    num_vars: nat,
    from: nat,
) -> Scalar {
    let w = half_weighted(row, r, cutoff, num_vars);
    smul(sum_onto(row[0], w.skip(from as int), cutoff), row[0])
}

/// The row of the consistency check: the valid bit, and the combinations of
/// the inputs and of the outputs.
pub open spec fn consistency_row(row: Seq<Scalar>, r: Scalar, cutoff: nat, num_vars: nat) -> Seq<
    Scalar,
> {
    repeated(szero(), num_vars).update(0, row[0]).update(
        1,
        half_sum(row, r, cutoff, num_vars, 0),
    ).update(2, half_sum(row, r, cutoff, num_vars, cutoff))
}

/// The weighted halves of the first `n` rows.
pub open spec fn half_weighted_rows(
    m: Seq<Seq<Scalar>>,
    n: nat,
    r: Scalar,
    cutoff: nat,
    num_vars: nat,
) -> Seq<Seq<Scalar>> {
    Seq::new(n, |q: int| half_weighted(m[q], r, cutoff, num_vars))
}

/// The rows of the consistency check of the first `n` rows.
pub open spec fn consistency_rows(
    m: Seq<Seq<Scalar>>,
    n: nat,
    r: Scalar,
    cutoff: nat,
    num_vars: nat,
) -> Seq<Seq<Scalar>> {
    Seq::new(n, |q: int| consistency_row(m[q], r, cutoff, num_vars))
}

/// Whether every row of a matrix has one length.
pub open spec fn all_wide(m: Seq<Seq<Scalar>>, width: nat) -> bool {
    forall|i: int| 0 <= i < m.len() ==> (#[trigger] m[i]).len() == width
}

/// The powers of `r`.
pub fn powers_of(r: &Scalar, n: usize) -> (v: Vec<Scalar>)
    requires
        n >= 1,
    ensures
        v@ == powers(*r, n as nat),
        v@.len() == n,
        v@[0] == sone(),
        n > 1 ==> v@[1] == *r,
        forall|j: int| 1 <= j < n - 1 ==> #[trigger] v@[j + 1] == smul(v@[j], *r),
{
    let mut v: Vec<Scalar> = Vec::new();
    v.push(Scalar::one());
    let mut r_tmp = *r;
    let mut j: usize = 1;
    assert(v@ =~= powers(*r, n as nat).take(1));
    while j < n
        invariant
            1 <= j <= n,
            r_tmp == power(*r, j as nat),
            v@ == powers(*r, n as nat).take(j as int),
        decreases n - j,
    {
        v.push(r_tmp);
        r_tmp = r_tmp.times(r);
        j += 1;
        assert(v@ =~= powers(*r, n as nat).take(j as int));
    }
    assert(v@ =~= powers(*r, n as nat));
    v
}

/// A row with each value weighted.
pub fn weigh(row: &Vec<Scalar>, weights: &Vec<Scalar>, r: &Scalar) -> (v: Vec<Scalar>)
    requires
        row@.len() <= weights@.len(),
        weights@ == powers(*r, weights@.len()),
    ensures
        v@ == weighted(row@, *r),
{
    let mut v: Vec<Scalar> = Vec::new();
    let mut j: usize = 0;
    while j < row.len()
        invariant
            j <= row@.len() <= weights@.len(),
            weights@ == powers(*r, weights@.len()),
            v@ == weighted(row@, *r).take(j as int),
        decreases row@.len() - j,
    {
        v.push(weights[j].times(&row[j]));
        j += 1;
        assert(v@ =~= weighted(row@, *r).take(j as int));
    }
    assert(v@ =~= weighted(row@, *r));
    v
}

/// The rows of a matrix, weighted.
pub fn weigh_rows(m: &Vec<Vec<Scalar>>, weights: &Vec<Scalar>, r: &Scalar) -> (v: Vec<Vec<Scalar>>)
    requires
        all_wide(rows(m@), weights@.len()),
        weights@ == powers(*r, weights@.len()),
    ensures
        rows(v@) == weighted_rows(rows(m@), *r),
{
    let mut v: Vec<Vec<Scalar>> = Vec::new();
    let mut q: usize = 0;
    while q < m.len()
        invariant
            q <= m@.len(),
            all_wide(rows(m@), weights@.len()),
            weights@ == powers(*r, weights@.len()),
            v@.len() == q,
            forall|j: int| 0 <= j < q ==> (#[trigger] v@[j])@ == weighted(m@[j]@, *r),
        decreases m@.len() - q,
    {
        assert(rows(m@)[q as int].len() == weights@.len());
        v.push(weigh(&m[q], weights, r));
        q += 1;
    }
    assert(rows(v@) =~= weighted_rows(rows(m@), *r));
    v
}

/// The products of factors, from the last one to the first, and the rows that
/// hold them, over the given bases.
fn accumulate(v: &Vec<Scalar>, x: &Vec<Scalar>, bases: Vec<Vec<Scalar>>) -> (r: Vec<Vec<Scalar>>)
    requires
        v@.len() == x@.len(),
        v@.len() == bases@.len(),
        forall|q: int| 0 <= q < bases@.len() ==> (#[trigger] bases@[q])@.len() >= 4,
    ensures
        r@.len() == v@.len(),
        forall|q: int|
            0 <= q < v@.len() ==> (#[trigger] r@[q])@ == accumulator_row(bases@[q]@, v@, x@, q),
{
    let ghost start = bases@;
    let mut out = bases;
    let n: usize = v.len();
    let mut q: usize = n;
    let mut next_pi = Scalar::zero();
    while q > 0
        invariant
            q <= n,
            n == v@.len(),
            n == x@.len(),
            n == start.len(),
            out@.len() == n,
            forall|j: int| 0 <= j < n ==> (#[trigger] start[j])@.len() >= 4,
            forall|j: int| 0 <= j < q ==> (#[trigger] out@[j])@ == start[j]@,
            forall|j: int|
                q <= j < n ==> (#[trigger] out@[j])@ == accumulator_row(start[j]@, v@, x@, j),
            q < n ==> next_pi == smul(v@[q as int], running(v@, x@, q as int)),
        decreases q,
    {
        let p = q;
        q = q - 1;
        let d = if q != n - 1 {
            x[q].times(&next_pi.plus(&Scalar::one()).minus(&v[p]))
        } else {
            x[q]
        };
        let pi = v[q].times(&d);
        let mut row = out.remove(q);
        assert(row@ == start[q as int]@);
        row.set(0, v[q]);
        row.set(1, x[q]);
        row.set(2, pi);
        row.set(3, d);
        assert(d == running(v@, x@, q as int));
        out.insert(q, row);
        next_pi = pi;
    }
    out
}

/// The accumulator of the first `n` rows of a matrix, whose weighted rows are
/// `w`.
pub fn permutation_witness(
    m: &Vec<Vec<Scalar>>,
    w: &Vec<Vec<Scalar>>,
    n: usize,
    tau: &Scalar,
    r: &Scalar,
    num_vars: usize,
) -> (res: Vec<Vec<Scalar>>)
    requires
        n <= m@.len(),
        num_vars >= 4,
        all_wide(rows(m@), num_vars as nat),
        rows(w@) == weighted_rows(rows(m@), *r),
    ensures
        rows(res@) == permutation_rows(rows(m@), n as nat, *tau, *r, num_vars as nat),
{
    let ghost all = rows(m@);
    let mut v: Vec<Scalar> = Vec::new();
    let mut x: Vec<Scalar> = Vec::new();
    let mut bases: Vec<Vec<Scalar>> = Vec::new();
    let mut q: usize = 0;
    while q < n
        invariant
            q <= n <= m@.len(),
            all == rows(m@),
            all_wide(all, num_vars as nat),
            num_vars >= 4,
            rows(w@) == weighted_rows(all, *r),
            v@.len() == q,
            x@.len() == q,
            bases@.len() == q,
            forall|j: int| 0 <= j < q ==> #[trigger] v@[j] == all[j][0],
            forall|j: int| 0 <= j < q ==> #[trigger] x@[j] == root(all[j], *tau, *r),
            forall|j: int|
                0 <= j < q ==> (#[trigger] bases@[j])@ == repeated(szero(), num_vars as nat),
        decreases n - q,
    {
        assert(all[q as int].len() == num_vars);
        assert(m@[q as int]@ == all[q as int]);
        assert(rows(w@).len() == w@.len());
        assert(w@[q as int]@ == rows(w@)[q as int]);
        let valid = m[q][0];
        let s = sum_of(&w[q]);
        v.push(valid);
        x.push(valid.times(&tau.minus(&s)));
        bases.push(zeros(num_vars));
        q += 1;
    }
    let ghost start = bases@;
    let res = accumulate(&v, &x, bases);
    assert(v@ =~= valid_bits(all.take(n as int)));
    assert(x@ =~= roots(all.take(n as int), *tau, *r));
    assert(rows(res@) =~= permutation_rows(all, n as nat, *tau, *r, num_vars as nat));
    res
}

/// The accesses of one memory row.
fn mem_row(
    mems: &Vec<Scalar>,
    valid: &Scalar,
    tau: &Scalar,
    r: &Scalar,
    accesses: usize,
    num_vars: usize,
) -> (res: (Vec<Scalar>, Scalar))
    requires
        4 + 2 * accesses <= num_vars,
        4 + 2 * accesses <= mems@.len(),
    ensures
        res.0@ == mem_base(mems@, *valid, *tau, *r, accesses as nat, num_vars as nat),
        res.1 == mem_product(mems@, *valid, *tau, *r, accesses as nat),
{
    let mut row = zeros(num_vars);
    let mut mc = *valid;
    let mut x: usize = 0;
    assert(row@ =~= mem_base(mems@, *valid, *tau, *r, 0, num_vars as nat));
    while x < accesses
        invariant
            x <= accesses,
            4 + 2 * accesses <= num_vars,
            4 + 2 * accesses <= mems@.len(),
            row@ == mem_base(mems@, *valid, *tau, *r, x as nat, num_vars as nat),
            mc == mem_product(mems@, *valid, *tau, *r, x as nat),
        decreases accesses - x,
    {
        let i: usize = 2 * x + 4;
        let mr = r.times(&mems[i + 1]);
        let t = tau.minus(&mems[i]).minus(&mr);
        mc = mc.times(&t);
        row.set(i, mr);
        row.set(i + 1, mc);
        x += 1;
        proof {
            assert((i + 1 - 5) / 2 + 1 == x);
            assert(row@ =~= mem_base(mems@, *valid, *tau, *r, x as nat, num_vars as nat));
        }
    }
    (row, mc)
}

/// The memory witness of the first `n` proofs of an instance.
pub fn memory_witness(
    inputs: &Vec<Vec<Scalar>>,
    mems: &Vec<Vec<Scalar>>,
    n: usize,
    tau: &Scalar,
    r: &Scalar,
    accesses: usize,
    num_vars: usize,
) -> (res: Vec<Vec<Scalar>>)
    requires
        n <= inputs@.len(),
        n <= mems@.len(),
        num_vars >= 4,
        4 + 2 * accesses <= num_vars,
        all_wide(rows(inputs@), num_vars as nat),
        forall|q: int| 0 <= q < n ==> (#[trigger] mems@[q])@.len() >= 4 + 2 * accesses,
    ensures
        rows(res@) == memory_rows(
            rows(inputs@),
            rows(mems@),
            n as nat,
            *tau,
            *r,
            accesses as nat,
            num_vars as nat,
        ),
{
    let ghost all = rows(inputs@);
    let ghost reads = rows(mems@);
    let mut v: Vec<Scalar> = Vec::new();
    let mut x: Vec<Scalar> = Vec::new();
    let mut bases: Vec<Vec<Scalar>> = Vec::new();
    let mut q: usize = 0;
    while q < n
        invariant
            q <= n <= inputs@.len(),
            n <= mems@.len(),
            all == rows(inputs@),
            reads == rows(mems@),
            all_wide(all, num_vars as nat),
            num_vars >= 4,
            4 + 2 * accesses <= num_vars,
            forall|j: int| 0 <= j < n ==> (#[trigger] mems@[j])@.len() >= 4 + 2 * accesses,
            v@.len() == q,
            x@.len() == q,
            bases@.len() == q,
            forall|j: int| 0 <= j < q ==> #[trigger] v@[j] == all[j][0],
            forall|j: int|
                0 <= j < q ==> #[trigger] x@[j] == mem_product(
                    reads[j],
                    all[j][0],
                    *tau,
                    *r,
                    accesses as nat,
                ),
            forall|j: int|
                0 <= j < q ==> (#[trigger] bases@[j])@ == mem_base(
                    reads[j],
                    all[j][0],
                    *tau,
                    *r,
                    accesses as nat,
                    num_vars as nat,
                ),
        decreases n - q,
    {
        assert(all[q as int].len() == num_vars);
        assert(inputs@[q as int]@ == all[q as int]);
        assert(mems@[q as int]@ == reads[q as int]);
        let valid = inputs[q][0];
        let (base, last) = mem_row(&mems[q], &valid, tau, r, accesses, num_vars);
        v.push(valid);
        x.push(last);
        bases.push(base);
        q += 1;
    }
    let res = accumulate(&v, &x, bases);
    assert(v@ =~= valid_bits(all.take(n as int)));
    assert(x@ =~= mem_roots(reads, v@, *tau, *r, accesses as nat));
    assert(rows(res@) =~= memory_rows(
        all,
        reads,
        n as nat,
        *tau,
        *r,
        accesses as nat,
        num_vars as nat,
    ));
    res
}

/// One row of each of the two witnesses of the consistency check.
fn consistency_pair(
    row: &Vec<Scalar>,
    weights: &Vec<Scalar>,
    r: &Scalar,
    cutoff: usize,
    num_vars: usize,
) -> (res: (Vec<Scalar>, Vec<Scalar>))
    requires
        num_vars >= 4,
        2 * cutoff <= num_vars,
        row@.len() == num_vars,
        weights@ == powers(*r, num_vars as nat),
    ensures
        res.0@ == half_weighted(row@, *r, cutoff as nat, num_vars as nat),
        res.1@ == consistency_row(row@, *r, cutoff as nat, num_vars as nat),
{
    let ghost full = half_weighted(row@, *r, cutoff as nat, num_vars as nat);
    let mut w2 = zeros(num_vars);
    let mut w3 = zeros(num_vars);
    let mut left = row[0];
    let mut right = row[0];
    let mut i: usize = 1;
    while i < cutoff
        invariant
            1 <= i,
            i <= cutoff || i == 1,
            num_vars >= 4,
            2 * cutoff <= num_vars,
            row@.len() == num_vars,
            weights@ == powers(*r, num_vars as nat),
            full == half_weighted(row@, *r, cutoff as nat, num_vars as nat),
            w2@.len() == num_vars,
            forall|j: int|
                0 <= j < num_vars ==> #[trigger] w2@[j] == if 1 <= j < i || cutoff < j < cutoff + i {
                    full[j]
                } else {
                    szero()
                },
            left == sum_onto(row@[0], full.skip(0), i as nat),
            right == sum_onto(row@[0], full.skip(cutoff as int), i as nat),
        decreases cutoff - i,
    {
        let a = weights[i].times(&row[i]);
        let b = weights[i].times(&row[cutoff + i]);
        w2.set(i, a);
        w2.set(cutoff + i, b);
        left = left.plus(&a);
        right = right.plus(&b);
        i += 1;
        assert(full.skip(0)[i - 1] == a);
        assert(full.skip(cutoff as int)[i - 1] == b);
    }
    proof {
        assert(w2@ =~= full);
        assert(sum_onto(row@[0], full.skip(0), i as nat) == sum_onto(
            row@[0],
            full.skip(0),
            cutoff as nat,
        ));
        assert(sum_onto(row@[0], full.skip(cutoff as int), i as nat) == sum_onto(
            row@[0],
            full.skip(cutoff as int),
            cutoff as nat,
        ));
    }
    w3.set(0, row[0]);
    w3.set(1, left.times(&row[0]));
    w3.set(2, right.times(&row[0]));
    (w2, w3)
}

/// The two witnesses of the consistency check of the first `n` rows.
pub fn consistency_witness(
    m: &Vec<Vec<Scalar>>,
    weights: &Vec<Scalar>,
    n: usize,
    r: &Scalar,
    cutoff: usize,
    num_vars: usize,
) -> (res: (Vec<Vec<Scalar>>, Vec<Vec<Scalar>>))
    requires
        n <= m@.len(),
        num_vars >= 4,
        2 * cutoff <= num_vars,
        all_wide(rows(m@), num_vars as nat),
        weights@ == powers(*r, num_vars as nat),
    ensures
        rows(res.0@) == half_weighted_rows(
            rows(m@),
            n as nat,
            *r,
            cutoff as nat,
            num_vars as nat,
        ),
        rows(res.1@) == consistency_rows(rows(m@), n as nat, *r, cutoff as nat, num_vars as nat),
{
    let ghost all = rows(m@);
    let mut w2: Vec<Vec<Scalar>> = Vec::new();
    let mut w3: Vec<Vec<Scalar>> = Vec::new();
    let mut q: usize = 0;
    while q < n
        invariant
            q <= n <= m@.len(),
            all == rows(m@),
            all_wide(all, num_vars as nat),
            num_vars >= 4,
            2 * cutoff <= num_vars,
            weights@ == powers(*r, num_vars as nat),
            w2@.len() == q,
            w3@.len() == q,
            forall|j: int|
                0 <= j < q ==> (#[trigger] w2@[j])@ == half_weighted(
                    all[j],
                    *r,
                    cutoff as nat,
                    num_vars as nat,
                ),
            forall|j: int|
                0 <= j < q ==> (#[trigger] w3@[j])@ == consistency_row(
                    all[j],
                    *r,
                    cutoff as nat,
                    num_vars as nat,
                ),
        decreases n - q,
    {
        assert(all[q as int].len() == num_vars);
        assert(m@[q as int]@ == all[q as int]);
        let (a, b) = consistency_pair(&m[q], weights, r, cutoff, num_vars);
        w2.push(a);
        w3.push(b);
        q += 1;
    }
    assert(rows(w2@) =~= half_weighted_rows(all, n as nat, *r, cutoff as nat, num_vars as nat));
    assert(rows(w3@) =~= consistency_rows(all, n as nat, *r, cutoff as nat, num_vars as nat));
    (w2, w3)
}

} // verus!
