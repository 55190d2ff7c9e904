//! What the witnesses of a program come to.
use crate::field::{canonical_ops, mul_assoc, mul_comm, mul_zero, neutral, sub_add};
use crate::scalar::{lemma_constants, smul, sone, ssub, szero, Scalar};
use crate::sums::all_canonical;
use crate::vectors::product;
use crate::witness::{
    half_sum, half_weighted, mem_product, mem_roots, mem_term, memory_rows, permutation_rows, roots,
    running, sum_onto, valid_bits,
};
use vstd::prelude::*;

verus! {

/// A product is a reduced scalar.
pub proof fn lemma_product_canonical(s: Seq<Scalar>)
    ensures
        product(s).canonical(),
{
    lemma_constants();
    if s.len() > 0 {
        canonical_ops(product(s.drop_last()), s.last());
    }
}

/// The product of a concatenation.
pub proof fn product_concat(a: Seq<Scalar>, b: Seq<Scalar>)
    ensures
        product(a + b) == smul(product(a), product(b)),
    decreases b.len(),
{
    if b.len() == 0 {
        assert(a + b =~= a);
        lemma_product_canonical(a);
        neutral(product(a));
    } else {
        product_concat(a, b.drop_last());
        assert((a + b).drop_last() =~= a + b.drop_last());
        mul_assoc(product(a), product(b.drop_last()), b.last());
    }
}

/// A product is that of one factor and of the others.
pub proof fn product_remove(s: Seq<Scalar>, i: int)
    requires
        0 <= i < s.len(),
    ensures
        product(s) == smul(product(s.remove(i)), s[i]),
{
    let (a, b) = (s.take(i), s.skip(i + 1));
    let x = seq![s[i]];
    assert(s =~= (a + x) + b);
    assert(s.remove(i) =~= a + b);
    product_concat(a + x, b);
    product_concat(a, x);
    product_concat(a, b);
    assert(a + x =~= a.push(s[i]));
    assert((a + x).drop_last() =~= a);
    assert(product(a + x) == smul(product(a), s[i]));
    mul_assoc(product(a), s[i], product(b));
    mul_comm(s[i], product(b));
    mul_assoc(product(a), product(b), s[i]);
}

/// Whether the valid rows of a matrix are its first `k` ones: their first
/// value is one, and that of the others is zero.
pub open spec fn valid_first(v: Seq<Scalar>, k: nat) -> bool {
    &&& 1 <= k <= v.len()
    &&& forall|q: int| 0 <= q < k ==> #[trigger] v[q] == sone()
    &&& forall|q: int| k <= q < v.len() ==> #[trigger] v[q] == szero()
}

/// The running product at a valid row is the product of the factors from there
/// to the last valid row.
pub proof fn lemma_running(v: Seq<Scalar>, x: Seq<Scalar>, k: nat, q: int)
    requires
        valid_first(v, k),
        v.len() == x.len(),
        all_canonical(x),
        0 <= q < k,
    ensures
        running(v, x, q) == product(x.subrange(q, k as int)),
    decreases k - q,
{
    lemma_constants();
    let s = x.subrange(q, k as int);
    let rest = x.subrange(q + 1, k as int);
    assert(s =~= seq![x[q]] + rest);
    product_concat(seq![x[q]], rest);
    assert(seq![x[q]].drop_last() =~= Seq::<Scalar>::empty());
    assert(x[q].canonical());
    neutral(x[q]);
    reveal_with_fuel(product, 2);
    assert(product(seq![x[q]]) == x[q]);
    if q + 1 < k {
        lemma_running(v, x, k, q + 1);
        let p = running(v, x, q + 1);
        lemma_product_canonical(rest);
        assert(v[q + 1] == sone());
        neutral(p);
        sub_add(p, sone());
    } else {
        assert(rest =~= Seq::<Scalar>::empty());
        if q + 1 < v.len() {
            let p = running(v, x, q + 1);
            assert(v[q + 1] == szero());
            mul_zero(p);
            neutral(sone());
        }
    }
}

/// The factors of rows are reduced.
proof fn lemma_roots_canonical(m: Seq<Seq<Scalar>>, tau: Scalar, r: Scalar)
    ensures
        all_canonical(roots(m, tau, r)),
{
    let x = roots(m, tau, r);
    assert forall|q: int| 0 <= q < x.len() implies (#[trigger] x[q]).canonical() by {
        canonical_ops(
            m[q][0],
            ssub(tau, crate::vectors::sum(crate::witness::weighted(m[q], r))),
        );
    }
}

/// The fourth value of the first row of an accumulator is the product of the
/// factors of all valid rows.
pub proof fn law_accumulator_product(
    m: Seq<Seq<Scalar>>,
    n: nat,
    k: nat,
    tau: Scalar,
    r: Scalar,
    num_vars: nat,
)
    requires
        n <= m.len(),
        num_vars >= 4,
        valid_first(valid_bits(m.take(n as int)), k),
    ensures
        permutation_rows(m, n, tau, r, num_vars)[0][3] == product(roots(m.take(k as int), tau, r)),
{
    let v = valid_bits(m.take(n as int));
    let x = roots(m.take(n as int), tau, r);
    lemma_roots_canonical(m.take(n as int), tau, r);
    lemma_running(v, x, k, 0);
    assert(x.subrange(0, k as int) =~= roots(m.take(k as int), tau, r));
}

/// The fourth value of the first row of the memory witness is the product, over
/// all valid rows, of the products of their accesses.
pub proof fn law_memory_product(
    inputs: Seq<Seq<Scalar>>,
    mems: Seq<Seq<Scalar>>,
    n: nat,
    k: nat,
    tau: Scalar,
    r: Scalar,
    accesses: nat,
    num_vars: nat,
)
    requires
        n <= inputs.len(),
        n <= mems.len(),
        num_vars >= 4,
        accesses >= 1,
        valid_first(valid_bits(inputs.take(n as int)), k),
    ensures
        memory_rows(inputs, mems, n, tau, r, accesses, num_vars)[0][3] == product(
            Seq::new(k, |q: int| mem_product(mems[q], sone(), tau, r, accesses)),
        ),
{
    let v = valid_bits(inputs.take(n as int));
    let x = mem_roots(mems, v, tau, r, accesses);
    assert forall|q: int| 0 <= q < x.len() implies (#[trigger] x[q]).canonical() by {
        canonical_ops(
            mem_product(mems[q], v[q], tau, r, (accesses - 1) as nat),
            mem_term(mems[q], tau, r, (accesses - 1) as nat),
        );
    }
    lemma_running(v, x, k, 0);
    assert(x.subrange(0, k as int) =~= Seq::new(
        k,
        |q: int| mem_product(mems[q], sone(), tau, r, accesses),
    ));
}

/// The valid rows of matrices, one matrix after the other: of the `p`-th the
/// first `ks[p]` ones.
pub open spec fn valid_rows(m: Seq<Seq<Seq<Scalar>>>, ks: Seq<nat>, count: nat) -> Seq<Seq<Scalar>>
    decreases count,
{
    if count == 0 {
        Seq::empty()
    } else {
        valid_rows(m, ks, (count - 1) as nat) + m[count - 1].take(ks[count - 1] as int)
    }
}

/// The product of the factors of matrices is that of the factors of all their
/// valid rows.
proof fn lemma_blocks_product(
    m: Seq<Seq<Seq<Scalar>>>,
    ks: Seq<nat>,
    values: Seq<Scalar>,
    tau: Scalar,
    r: Scalar,
    count: nat,
)
    requires
        count <= values.len(),
        forall|p: int|
            0 <= p < count ==> #[trigger] values[p] == product(roots(m[p].take(ks[p] as int), tau, r)),
    ensures
        product(values.take(count as int)) == product(roots(valid_rows(m, ks, count), tau, r)),
    decreases count,
{
    if count == 0 {
        assert(values.take(0) =~= Seq::<Scalar>::empty());
        assert(roots(valid_rows(m, ks, 0), tau, r) =~= Seq::<Scalar>::empty());
    } else {
        let p = (count - 1) as nat;
        lemma_blocks_product(m, ks, values, tau, r, p);
        let front = values.take(count as int);
        assert(front.drop_last() =~= values.take(p as int));
        assert(front.last() == values[p as int]);
        let (a, b) = (valid_rows(m, ks, p), m[p as int].take(ks[p as int] as int));
        assert(roots(a + b, tau, r) =~= roots(a, tau, r) + roots(b, tau, r));
        product_concat(roots(a, tau, r), roots(b, tau, r));
    }
}

/// The product of the factors of rows does not depend on their order.
pub proof fn law_factors_permute(a: Seq<Seq<Scalar>>, b: Seq<Seq<Scalar>>, tau: Scalar, r: Scalar)
    requires
        a.to_multiset() == b.to_multiset(),
    ensures
        product(roots(a, tau, r)) == product(roots(b, tau, r)),
    decreases a.len(),
{
    a.to_multiset_ensures();
    b.to_multiset_ensures();
    assert(a.len() == a.to_multiset().len());
    assert(b.len() == b.to_multiset().len());
    if a.len() > 0 {
        let x = a.last();
        let a0 = a.drop_last();
        assert(a.to_multiset().count(x) > 0) by {
            assert(a[a.len() - 1] == x);
            assert(a.contains(x));
        }
        assert(b.contains(x));
        let i = choose|i: int| 0 <= i < b.len() && b[i] == x;
        let b0 = b.remove(i);
        assert(a0 =~= a.remove(a.len() - 1));
        assert(a0.to_multiset() =~= a.to_multiset().remove(x));
        assert(b0.to_multiset() =~= b.to_multiset().remove(x));
        law_factors_permute(a0, b0, tau, r);
        assert(roots(a, tau, r).drop_last() =~= roots(a0, tau, r));
        assert(roots(b, tau, r).remove(i) =~= roots(b0, tau, r));
        product_remove(roots(b, tau, r), i);
    } else {
        assert(b.len() == 0);
        assert(roots(a, tau, r) =~= roots(b, tau, r));
    }
}

/// Where the valid rows in the order of execution are those of the blocks in
/// another order, the product of the accumulators of the blocks is that of the
/// execution.
pub proof fn law_permutation_balances(
    blocks: Seq<Seq<Seq<Scalar>>>,
    counts: Seq<usize>,
    ks: Seq<nat>,
    values: Seq<Scalar>,
    executed: Seq<Seq<Scalar>>,
    n: nat,
    k: nat,
    tau: Scalar,
    r: Scalar,
    num_vars: nat,
)
    requires
        num_vars >= 4,
        counts.len() >= blocks.len(),
        ks.len() == blocks.len(),
        values.len() == blocks.len(),
        forall|p: int|
            0 <= p < blocks.len() ==> {
                &&& (#[trigger] counts[p]) <= blocks[p].len()
                &&& valid_first(valid_bits(blocks[p].take(counts[p] as int)), ks[p])
                &&& values[p] == permutation_rows(
                    blocks[p],
                    counts[p] as nat,
                    tau,
                    r,
                    num_vars,
                )[0][3]
            },
        n <= executed.len(),
        valid_first(valid_bits(executed.take(n as int)), k),
        valid_rows(blocks, ks, blocks.len()).to_multiset() == executed.take(k as int).to_multiset(),
    ensures
        product(values) == permutation_rows(executed, n, tau, r, num_vars)[0][3],
{
    assert forall|p: int| 0 <= p < blocks.len() implies #[trigger] values[p] == product(
        roots(blocks[p].take(ks[p] as int), tau, r),
    ) by {
        assert(counts[p] <= blocks[p].len());
        law_accumulator_product(blocks[p], counts[p] as nat, ks[p], tau, r, num_vars);
    }
    lemma_blocks_product(blocks, ks, values, tau, r, blocks.len());
    assert(values.take(blocks.len() as int) =~= values);
    law_accumulator_product(executed, n, k, tau, r, num_vars);
    law_factors_permute(
        valid_rows(blocks, ks, blocks.len()),
        executed.take(k as int),
        tau,
        r,
    );
}

/// Where a block takes up what the one before it left, the combination of its
/// inputs is that of the other's outputs.
pub proof fn law_consistency_chains(
    a: Seq<Scalar>,
    b: Seq<Scalar>,
    r: Scalar,
    cutoff: nat,
    num_vars: nat,
)
    requires
        2 * cutoff <= num_vars,
        a.len() == num_vars,
        b.len() == num_vars,
        a[0] == b[0],
        forall|i: int| 1 <= i < cutoff ==> #[trigger] a[cutoff + i] == b[i],
    ensures
        half_sum(a, r, cutoff, num_vars, cutoff) == half_sum(b, r, cutoff, num_vars, 0),
{
    let wa = half_weighted(a, r, cutoff, num_vars).skip(cutoff as int);
    let wb = half_weighted(b, r, cutoff, num_vars).skip(0);
    assert forall|i: int| 1 <= i < cutoff implies wa[i] == wb[i] by {
        assert(a[cutoff + i] == b[i]);
    }
    lemma_sum_onto(a[0], wa, wb, cutoff);
}

proof fn lemma_sum_onto(first: Scalar, a: Seq<Scalar>, b: Seq<Scalar>, k: nat)
    requires
        forall|i: int| 1 <= i < k ==> a[i] == b[i],
    ensures
        sum_onto(first, a, k) == sum_onto(first, b, k),
    decreases k,
{
    if k > 1 {
        lemma_sum_onto(first, a, b, (k - 1) as nat);
    }
}

} // verus!
