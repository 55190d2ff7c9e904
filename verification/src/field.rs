//! The laws of the field of scalars.
use crate::scalar::{
    lemma_constants, lemma_sadd_view, lemma_scalar_injective, lemma_smul_view, lemma_ssub_view,
    order, sadd, smul, sone, ssub, szero, Scalar,
};
use vstd::arithmetic::div_mod::{
    lemma_add_mod_noop, lemma_mul_mod_noop_left, lemma_mul_mod_noop_right, lemma_small_mod,
    lemma_sub_mod_noop,
};
use vstd::prelude::*;

verus! {

/// Addition is commutative.
pub proof fn add_comm(a: Scalar, b: Scalar)
    ensures
        sadd(a, b) == sadd(b, a),
{
}

/// Multiplication is commutative.
pub proof fn mul_comm(a: Scalar, b: Scalar)
    ensures
        smul(a, b) == smul(b, a),
{
    assert(a@ * b@ == b@ * a@) by (nonlinear_arith);
}

/// Addition is associative.
pub proof fn add_assoc(a: Scalar, b: Scalar, c: Scalar)
    ensures
        sadd(sadd(a, b), c) == sadd(a, sadd(b, c)),
{
    let q = order() as int;
    lemma_sadd_view(a, b);
    lemma_sadd_view(b, c);
    lemma_add_mod_noop((a@ + b@) as int, c@ as int, q);
    lemma_add_mod_noop((a@ + b@) as int % q, c@ as int, q);
    lemma_add_mod_noop(a@ as int, (b@ + c@) as int, q);
    lemma_add_mod_noop(a@ as int, (b@ + c@) as int % q, q);
    vstd::arithmetic::div_mod::lemma_mod_twice((a@ + b@) as int, q);
    vstd::arithmetic::div_mod::lemma_mod_twice((b@ + c@) as int, q);
}

/// Multiplication is associative.
pub proof fn mul_assoc(a: Scalar, b: Scalar, c: Scalar)
    ensures
        smul(smul(a, b), c) == smul(a, smul(b, c)),
{
    let q = order() as int;
    let (x, y, z) = (a@ as int, b@ as int, c@ as int);
    lemma_smul_view(a, b);
    lemma_smul_view(b, c);
    lemma_mul_mod_noop_left(x * y, z, q);
    lemma_mul_mod_noop_right(x, y * z, q);
    assert((x * y) * z == x * (y * z)) by (nonlinear_arith);
}

/// Multiplication distributes over addition.
pub proof fn distrib(a: Scalar, b: Scalar, c: Scalar)
    ensures
        smul(a, sadd(b, c)) == sadd(smul(a, b), smul(a, c)),
        smul(sadd(b, c), a) == sadd(smul(b, a), smul(c, a)),
{
    let q = order() as int;
    let (x, y, z) = (a@ as int, b@ as int, c@ as int);
    lemma_sadd_view(b, c);
    lemma_smul_view(a, b);
    lemma_smul_view(a, c);
    lemma_mul_mod_noop_right(x, y + z, q);
    lemma_add_mod_noop(x * y, x * z, q);
    assert(x * (y + z) == x * y + x * z) by (nonlinear_arith);
    mul_comm(a, sadd(b, c));
    mul_comm(a, b);
    mul_comm(a, c);
}

/// Zero is neutral for addition, and one for multiplication.
pub proof fn neutral(a: Scalar)
    requires
        a.canonical(),
    ensures
        sadd(a, szero()) == a,
        sadd(szero(), a) == a,
        smul(a, sone()) == a,
        smul(sone(), a) == a,
        ssub(a, szero()) == a,
{
    lemma_constants();
    lemma_small_mod(a@, order());
    lemma_sadd_view(a, szero());
    lemma_smul_view(a, sone());
    lemma_ssub_view(a, szero());
    lemma_scalar_injective(sadd(a, szero()), a);
    lemma_scalar_injective(smul(a, sone()), a);
    lemma_scalar_injective(ssub(a, szero()), a);
    mul_comm(a, sone());
}

/// A product with zero is zero.
pub proof fn mul_zero(a: Scalar)
    ensures
        smul(a, szero()) == szero(),
        smul(szero(), a) == szero(),
{
    lemma_constants();
    assert(a@ * 0 == 0) by (nonlinear_arith);
    mul_comm(a, szero());
}

/// A difference is undone by a sum.
pub proof fn sub_add(a: Scalar, b: Scalar)
    requires
        a.canonical(),
        b.canonical(),
    ensures
        sadd(ssub(a, b), b) == a,
        ssub(sadd(a, b), b) == a,
        sadd(b, ssub(a, b)) == a,
{
    let q = order() as int;
    lemma_ssub_view(a, b);
    lemma_sadd_view(ssub(a, b), b);
    lemma_sadd_view(a, b);
    lemma_ssub_view(sadd(a, b), b);
    lemma_small_mod(a@, order());
    lemma_add_mod_noop(a@ - b@, b@ as int, q);
    lemma_small_mod(b@, order());
    lemma_sub_mod_noop((a@ + b@) as int, b@ as int, q);
    lemma_scalar_injective(sadd(ssub(a, b), b), a);
    lemma_scalar_injective(ssub(sadd(a, b), b), a);
}

/// A difference of equals is zero.
pub proof fn sub_self(a: Scalar)
    requires
        a.canonical(),
    ensures
        ssub(a, a) == szero(),
{
    lemma_constants();
    lemma_ssub_view(a, a);
    lemma_small_mod(0, order());
    lemma_scalar_injective(ssub(a, a), szero());
}

/// Sums and products are reduced.
pub proof fn canonical_ops(a: Scalar, b: Scalar)
    ensures
        sadd(a, b).canonical(),
        smul(a, b).canonical(),
        b.canonical() ==> ssub(a, b).canonical(),
{
    lemma_sadd_view(a, b);
    lemma_smul_view(a, b);
    if b.canonical() {
        lemma_ssub_view(a, b);
    }
}

/// Four summands may be paired in two ways.
pub proof fn four(a: Scalar, b: Scalar, c: Scalar, d: Scalar)
    ensures
        sadd(sadd(a, b), sadd(c, d)) == sadd(sadd(a, c), sadd(b, d)),
{
    add_assoc(a, b, sadd(c, d));
    add_assoc(b, c, d);
    add_comm(b, c);
    add_assoc(c, b, d);
    add_assoc(a, c, sadd(b, d));
}

/// Multiplication distributes over subtraction.
pub proof fn distrib_sub(a: Scalar, b: Scalar, c: Scalar)
    requires
        b.canonical(),
        c.canonical(),
    ensures
        smul(a, ssub(b, c)) == ssub(smul(a, b), smul(a, c)),
        smul(ssub(b, c), a) == ssub(smul(b, a), smul(c, a)),
{
    let d = ssub(b, c);
    canonical_ops(b, c);
    canonical_ops(a, d);
    canonical_ops(a, c);
    canonical_ops(a, b);
    distrib(a, d, c);
    sub_add(b, c);
    sub_add(smul(a, d), smul(a, c));
    mul_comm(a, d);
    mul_comm(a, b);
    mul_comm(a, c);
}

/// What a sum with a difference comes to when the same is taken away.
pub proof fn add_sub_cancel(a: Scalar, b: Scalar, c: Scalar)
    requires
        a.canonical(),
        b.canonical(),
        c.canonical(),
        sadd(a, c) == sadd(b, c),
    ensures
        a == b,
{
    sub_add(a, c);
    sub_add(b, c);
}

} // verus!
