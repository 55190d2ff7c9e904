//! What the values in the witnesses of a program are, as integers modulo the
//! order and by the relations between them.
use crate::field::{mul_assoc, mul_comm, neutral};
use crate::scalar::{lemma_constants, order, sadd, smul, sone, ssub, szero, Scalar};
use crate::sumcheck_laws::{stands_add, stands_for, stands_itself, stands_mul, stands_sub};
use crate::sums::all_canonical;
use crate::vectors::{product, sum};
use crate::witness::{
    consistency_rows, half_weighted, half_weighted_rows, mem_product, mem_roots, mem_term,
    memory_rows, permutation_rows, power, powers, root, running, shared_row, sum_onto, valid_bits,
    weighted, weighted_rows,
};
use vstd::arithmetic::power::{lemma_pow0, lemma_pow1, pow};
use vstd::prelude::*;

verus! {

/// The sum of the values of a list, as an integer.
pub open spec fn total(s: Seq<Scalar>) -> int
    decreases s.len(),
{
    if s.len() == 0 {
        0
    } else {
        total(s.drop_last()) + s.last()@
    }
}

/// The product of the values of a list, as an integer.
pub open spec fn multiplied(s: Seq<Scalar>) -> int
    decreases s.len(),
{
    if s.len() == 0 {
        1
    } else {
        multiplied(s.drop_last()) * s.last()@
    }
}

/// The integer `s[from + lo] r^lo + ... + s[from + hi - 1] r^(hi - 1)`.
pub open spec fn powers_total(s: Seq<Scalar>, from: int, r: int, lo: nat, hi: nat) -> int
    decreases hi,
{
    if hi <= lo {
        0
    } else {
        powers_total(s, from, r, lo, (hi - 1) as nat) + pow(r, (hi - 1) as nat) * s[from + hi
            - 1]@
    }
}

/// A sum of scalars is the sum of their integers.
pub proof fn law_sum_integer(s: Seq<Scalar>)
    requires
        all_canonical(s),
    ensures
        sum(s)@ == total(s) % (order() as int),
    decreases s.len(),
{
    lemma_constants();
    if s.len() > 0 {
        assert forall|i: int| 0 <= i < s.drop_last().len() implies (
        #[trigger] s.drop_last()[i]).canonical() by {
            assert(s[i].canonical());
        }
        law_sum_integer(s.drop_last());
        assert(s[s.len() - 1].canonical());
        stands_itself(s.last());
        stands_add(sum(s.drop_last()), total(s.drop_last()), s.last(), s.last()@ as int);
    }
}

/// A product of scalars is the product of their integers.
pub proof fn law_product_integer(s: Seq<Scalar>)
    requires
        all_canonical(s),
    ensures
        product(s)@ == multiplied(s) % (order() as int),
    decreases s.len(),
{
    lemma_constants();
    if s.len() > 0 {
        assert forall|i: int| 0 <= i < s.drop_last().len() implies (
        #[trigger] s.drop_last()[i]).canonical() by {
            assert(s[i].canonical());
        }
        law_product_integer(s.drop_last());
        assert(s[s.len() - 1].canonical());
        stands_itself(s.last());
        stands_mul(product(s.drop_last()), multiplied(s.drop_last()), s.last(), s.last()@ as int);
    }
}

/// A power of a scalar is the power of its integer.
pub proof fn law_power_integer(r: Scalar, k: nat)
    requires
        r.canonical(),
    ensures
        power(r, k)@ == pow(r@ as int, k) % (order() as int),
    decreases k,
{
    lemma_constants();
    let x = r@ as int;
    stands_itself(r);
    if k == 0 {
        lemma_pow0(x);
    } else if k == 1 {
        lemma_pow1(x);
    } else {
        let p = (k - 1) as nat;
        law_power_integer(r, p);
        stands_mul(power(r, p), pow(x, p), r, x);
        vstd::arithmetic::power::lemma_pow_adds(x, p, 1);
        lemma_pow1(x);
    }
}

/// The first weight is one, and each weight times the challenge is the next.
pub proof fn law_weights_multiply(r: Scalar, n: nat, j: int)
    requires
        r.canonical(),
        0 <= j < n,
    ensures
        powers(r, n).len() == n,
        powers(r, n)[0] == sone(),
        j + 1 < n ==> powers(r, n)[j + 1] == smul(powers(r, n)[j], r),
        powers(r, n)[j]@ == pow(r@ as int, j as nat) % (order() as int),
{
    law_power_integer(r, j as nat);
    lemma_constants();
    neutral(r);
    mul_comm(r, sone());
}

/// The weights of two columns multiply to that of the column that is as far as
/// both together.
pub proof fn law_weights_add(r: Scalar, n: nat, i: int, j: int)
    requires
        r.canonical(),
        0 <= i,
        0 <= j,
        i + j < n,
    ensures
        powers(r, n)[i + j] == smul(powers(r, n)[i], powers(r, n)[j]),
    decreases j,
{
    let w = powers(r, n);
    lemma_constants();
    law_weights_multiply(r, n, i + j);
    law_weights_multiply(r, n, i);
    law_weights_multiply(r, n, j);
    if j == 0 {
        law_power_integer(r, i as nat);
        vstd::arithmetic::div_mod::lemma_mod_bound(pow(r@ as int, i as nat), order() as int);
        neutral(w[i]);
    } else {
        law_weights_add(r, n, i, j - 1);
        law_weights_multiply(r, n, i + j - 1);
        law_weights_multiply(r, n, j - 1);
        mul_assoc(w[i], w[j - 1], r);
    }
}

/// The shared witness starts with `tau` and `r`, and goes on with `r` times the
/// value before.
pub proof fn law_shared_row(tau: Scalar, r: Scalar, n: nat, j: int)
    requires
        r.canonical(),
        n >= 2,
        1 <= j < n,
    ensures
        shared_row(tau, r, n).len() == n,
        shared_row(tau, r, n)[0] == tau,
        shared_row(tau, r, n)[1] == r,
        j + 1 < n ==> shared_row(tau, r, n)[j + 1] == smul(shared_row(tau, r, n)[j], r),
        shared_row(tau, r, n)[j]@ == pow(r@ as int, j as nat) % (order() as int),
{
    law_weights_multiply(r, n, j);
}

/// Each value of a weighted row is the value times its power of the challenge.
pub proof fn law_weighted_value(m: Seq<Seq<Scalar>>, r: Scalar, q: int, j: int)
    requires
        r.canonical(),
        0 <= q < m.len(),
        0 <= j < m[q].len(),
        m[q][j].canonical(),
    ensures
        weighted_rows(m, r).len() == m.len(),
        weighted_rows(m, r)[q].len() == m[q].len(),
        weighted_rows(m, r)[q][j]@ == (pow(r@ as int, j as nat) * m[q][j]@) % (order() as int),
{
    law_power_integer(r, j as nat);
    stands_itself(m[q][j]);
    stands_mul(power(r, j as nat), pow(r@ as int, j as nat), m[q][j], m[q][j]@ as int);
}

/// The sum of a weighted row is the value of the row as a polynomial.
proof fn lemma_weighted_sum(row: Seq<Scalar>, r: Scalar, k: nat)
    requires
        r.canonical(),
        all_canonical(row),
        k <= row.len(),
    ensures
        stands_for(sum(weighted(row, r).take(k as int)), powers_total(row, 0, r@ as int, 0, k)),
    decreases k,
{
    lemma_constants();
    let w = weighted(row, r);
    if k == 0 {
        assert(w.take(0) =~= Seq::<Scalar>::empty());
    } else {
        let p = (k - 1) as nat;
        lemma_weighted_sum(row, r, p);
        assert(w.take(k as int).drop_last() =~= w.take(p as int));
        assert(w.take(k as int).last() == w[p as int]);
        law_power_integer(r, p);
        assert(row[p as int].canonical());
        stands_itself(row[p as int]);
        let (x, y) = (pow(r@ as int, p), row[p as int]@ as int);
        stands_mul(power(r, p), x, row[p as int], y);
        stands_add(
            sum(w.take(p as int)),
            powers_total(row, 0, r@ as int, 0, p),
            w[p as int],
            x * y,
        );
    }
}

/// The factor of a row is its valid bit times the difference of `tau` and the
/// value of the row as a polynomial at `r`.
pub proof fn law_factor(row: Seq<Scalar>, tau: Scalar, r: Scalar)
    requires
        r.canonical(),
        tau.canonical(),
        all_canonical(row),
        row.len() >= 1,
    ensures
        root(row, tau, r)@ == (row[0]@ * (tau@ - powers_total(
            row,
            0,
            r@ as int,
            0,
            row.len(),
        ))) % (order() as int),
{
    let n = row.len();
    lemma_weighted_sum(row, r, n);
    let w = weighted(row, r);
    assert(w.take(n as int) =~= w);
    stands_itself(tau);
    assert(row[0].canonical());
    stands_itself(row[0]);
    let t = powers_total(row, 0, r@ as int, 0, n);
    stands_sub(tau, tau@ as int, sum(w), t);
    stands_mul(row[0], row[0]@ as int, ssub(tau, sum(w)), tau@ - t);
}

/// What the rows of an accumulator hold: the valid bit, the factor of the row,
/// and two running products, of which the last takes up the one of the next row
/// where that row is valid.
pub proof fn law_accumulator_rows(
    m: Seq<Seq<Scalar>>,
    n: nat,
    tau: Scalar,
    r: Scalar,
    num_vars: nat,
    q: int,
)
    requires
        r.canonical(),
        tau.canonical(),
        n <= m.len(),
        0 <= q < n,
        num_vars >= 4,
        m[q].len() >= 1,
        all_canonical(m[q]),
    ensures
        ({
            let w = permutation_rows(m, n, tau, r, num_vars);
            &&& w.len() == n
            &&& w[q].len() == num_vars
            &&& w[q][0] == m[q][0]
            &&& w[q][1]@ == (m[q][0]@ * (tau@ - powers_total(
                m[q],
                0,
                r@ as int,
                0,
                m[q].len(),
            ))) % (order() as int)
            &&& w[q][2] == smul(w[q][0], w[q][3])
            &&& q == n - 1 ==> w[q][3] == w[q][1]
            &&& q < n - 1 ==> w[q][3] == smul(
                w[q][1],
                ssub(sadd(w[q + 1][2], sone()), w[q + 1][0]),
            )
            &&& forall|j: int| 4 <= j < num_vars ==> #[trigger] w[q][j] == szero()
        }),
{
    law_factor(m[q], tau, r);
}

/// What the rows of the memory witness hold: the valid bit, the product of the
/// accesses, the two running products, and for each access the weighted value
/// and the product so far, whose factor is `tau` less the address and the
/// weighted value.
pub proof fn law_memory_rows(
    inputs: Seq<Seq<Scalar>>,
    mems: Seq<Seq<Scalar>>,
    n: nat,
    tau: Scalar,
    r: Scalar,
    accesses: nat,
    num_vars: nat,
    q: int,
)
    requires
        n <= inputs.len(),
        n <= mems.len(),
        0 <= q < n,
        1 <= accesses,
        4 + 2 * accesses <= num_vars,
    ensures
        ({
            let w = memory_rows(inputs, mems, n, tau, r, accesses, num_vars);
            &&& w.len() == n
            &&& w[q].len() == num_vars
            &&& w[q][0] == inputs[q][0]
            &&& w[q][1] == w[q][(3 + 2 * accesses) as int]
            &&& w[q][2] == smul(w[q][0], w[q][3])
            &&& q == n - 1 ==> w[q][3] == w[q][1]
            &&& q < n - 1 ==> w[q][3] == smul(
                w[q][1],
                ssub(sadd(w[q + 1][2], sone()), w[q + 1][0]),
            )
            &&& forall|x: int|
                0 <= x < accesses ==> #[trigger] w[q][2 * x + 4] == smul(r, mems[q][2 * x + 5])
            &&& forall|x: int|
                0 <= x < accesses ==> #[trigger] w[q][2 * x + 5] == smul(
                    if x == 0 {
                        w[q][0]
                    } else {
                        w[q][2 * x + 3]
                    },
                    ssub(ssub(tau, mems[q][2 * x + 4]), w[q][2 * x + 4]),
                )
            &&& forall|j: int| 4 + 2 * accesses <= j < num_vars ==> #[trigger] w[q][j] == szero()
        }),
{
    let w = memory_rows(inputs, mems, n, tau, r, accesses, num_vars);
    let v = valid_bits(inputs.take(n as int));
    let x = mem_roots(mems, v, tau, r, accesses);
    assert(v[q] == inputs[q][0]);
    assert((3 + 2 * accesses - 5) / 2 + 1 == accesses);
    assert((3 + 2 * accesses) % 2 == 1);
    assert forall|x: int| 0 <= x < accesses implies #[trigger] w[q][2 * x + 4] == smul(
        r,
        mems[q][2 * x + 5],
    ) by {
        assert((2 * x + 4) % 2 == 0);
    }
    assert forall|x: int| 0 <= x < accesses implies #[trigger] w[q][2 * x + 5] == smul(
        if x == 0 {
            w[q][0]
        } else {
            w[q][2 * x + 3]
        },
        ssub(ssub(tau, mems[q][2 * x + 4]), w[q][2 * x + 4]),
    ) by {
        assert((2 * x + 4) % 2 == 0);
        assert((2 * x + 5) % 2 == 1);
        assert((2 * x + 5 - 5) / 2 + 1 == x + 1);
        assert(w[q][2 * x + 5] == mem_product(mems[q], v[q], tau, r, (x + 1) as nat));
        reveal_with_fuel(mem_product, 2);
        assert(((x + 1) as nat - 1) as nat == x as nat);
        assert(mem_term(mems[q], tau, r, x as nat) == ssub(
            ssub(tau, mems[q][2 * x + 4]),
            smul(r, mems[q][2 * x + 5]),
        ));
        if x > 0 {
            assert((2 * x + 3) % 2 == 1);
            assert((2 * x + 3 - 5) / 2 + 1 == x);
        }
    }
}

/// The sum of one half of a row, as an integer.
proof fn lemma_half_sum(
    row: Seq<Scalar>,
    r: Scalar,
    cutoff: nat,
    num_vars: nat,
    from: nat,
    k: nat,
)
    requires
        r.canonical(),
        all_canonical(row),
        row.len() == num_vars,
        2 * cutoff <= num_vars,
        from == 0 || from == cutoff,
        1 <= k <= cutoff,
    ensures
        stands_for(
            sum_onto(row[0], half_weighted(row, r, cutoff, num_vars).skip(from as int), k),
            row[0]@ + powers_total(row, from as int, r@ as int, 1, k),
        ),
    decreases k,
{
    let w = half_weighted(row, r, cutoff, num_vars).skip(from as int);
    assert(row[0].canonical());
    stands_itself(row[0]);
    if k > 1 {
        let p = (k - 1) as nat;
        lemma_half_sum(row, r, cutoff, num_vars, from, p);
        law_power_integer(r, p);
        let v = row[(from + p) as int];
        assert(v.canonical());
        stands_itself(v);
        stands_mul(power(r, p), pow(r@ as int, p), v, v@ as int);
        assert(w[p as int] == smul(power(r, p), v));
        stands_add(
            sum_onto(row[0], w, p),
            row[0]@ + powers_total(row, from as int, r@ as int, 1, p),
            w[p as int],
            pow(r@ as int, p) * v@,
        );
    }
}

/// What the rows of the consistency check hold: the valid bit, and its product
/// with the value, as polynomials at `r`, of the inputs and of the outputs, both
/// with the valid bit in front.
pub proof fn law_consistency_rows(
    m: Seq<Seq<Scalar>>,
    n: nat,
    r: Scalar,
    cutoff: nat,
    num_vars: nat,
    q: int,
)
    requires
        r.canonical(),
        n <= m.len(),
        0 <= q < n,
        m[q].len() == num_vars,
        all_canonical(m[q]),
        1 <= cutoff,
        2 * cutoff <= num_vars,
        num_vars >= 4,
    ensures
        ({
            let w = consistency_rows(m, n, r, cutoff, num_vars);
            let (v, x) = (m[q][0]@ as int, r@ as int);
            &&& w.len() == n
            &&& w[q].len() == num_vars
            &&& w[q][0] == m[q][0]
            &&& w[q][1]@ == ((v + powers_total(m[q], 0, x, 1, cutoff)) * v) % (order() as int)
            &&& w[q][2]@ == ((v + powers_total(m[q], cutoff as int, x, 1, cutoff)) * v) % (
            order() as int)
            &&& forall|j: int| 3 <= j < num_vars ==> #[trigger] w[q][j] == szero()
        }),
{
    let row = m[q];
    let h = half_weighted(row, r, cutoff, num_vars);
    assert(row[0].canonical());
    stands_itself(row[0]);
    lemma_half_sum(row, r, cutoff, num_vars, 0, cutoff);
    lemma_half_sum(row, r, cutoff, num_vars, cutoff, cutoff);
    stands_mul(
        sum_onto(row[0], h.skip(0), cutoff),
        row[0]@ + powers_total(row, 0, r@ as int, 1, cutoff),
        row[0],
        row[0]@ as int,
    );
    stands_mul(
        sum_onto(row[0], h.skip(cutoff as int), cutoff),
        row[0]@ + powers_total(row, cutoff as int, r@ as int, 1, cutoff),
        row[0],
        row[0]@ as int,
    );
}

/// What the first witness of the consistency check holds: each input and each
/// output times its power of the challenge, and zero in front of either half and
/// behind the second.
pub proof fn law_half_weighted_rows(
    m: Seq<Seq<Scalar>>,
    n: nat,
    r: Scalar,
    cutoff: nat,
    num_vars: nat,
    q: int,
    i: int,
)
    requires
        r.canonical(),
        n <= m.len(),
        0 <= q < n,
        m[q].len() == num_vars,
        all_canonical(m[q]),
        1 <= i < cutoff,
        2 * cutoff <= num_vars,
    ensures
        ({
            let w = half_weighted_rows(m, n, r, cutoff, num_vars);
            let x = r@ as int;
            &&& w.len() == n
            &&& w[q].len() == num_vars
            &&& w[q][i]@ == (pow(x, i as nat) * m[q][i]@) % (order() as int)
            &&& w[q][cutoff + i]@ == (pow(x, i as nat) * m[q][cutoff + i]@) % (order() as int)
            &&& w[q][0] == szero()
            &&& w[q][cutoff as int] == szero()
            &&& forall|j: int| 2 * cutoff <= j < num_vars ==> #[trigger] w[q][j] == szero()
        }),
{
    let (a, b) = (m[q][i], m[q][cutoff + i]);
    law_power_integer(r, i as nat);
    stands_itself(a);
    stands_itself(b);
    stands_mul(power(r, i as nat), pow(r@ as int, i as nat), a, a@ as int);
    stands_mul(power(r, i as nat), pow(r@ as int, i as nat), b, b@ as int);
}

} // verus!
