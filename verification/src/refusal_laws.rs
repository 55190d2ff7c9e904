//! When an instance is refused, and with what error.
use crate::errors::R1CSError;
use crate::instance::{
    cons_padded, entry_error, first_error, lemma_cons_padded, matrix_error, RawEntry,
};
use crate::math::{lemma_log2_up, log2_up, next_pow2};
use crate::scalar::{le_value, order};
use vstd::arithmetic::power2::{lemma_pow2_strictly_increases, pow2};
use vstd::prelude::*;

verus! {

/// Whether an entry names a row and a column of the matrix.
pub open spec fn inside(e: RawEntry, num_cons: nat, num_vars: nat) -> bool {
    e.0 < num_cons && e.1 < num_vars
}

/// Whether an entry is taken: it names a row and a column of the matrix, and its
/// bytes encode an integer below the order.
pub open spec fn taken(e: RawEntry, num_cons: nat, num_vars: nat) -> bool {
    inside(e, num_cons, num_vars) && le_value(e.2@) < order()
}

/// Whether an entry is the first of a matrix that is not taken, and an error says
/// why: its place comes before its bytes.
pub open spec fn first_refused(
    m: Seq<RawEntry>,
    num_cons: nat,
    num_vars: nat,
    k: int,
    e: R1CSError,
) -> bool {
    &&& 0 <= k < m.len()
    &&& !taken(m[k], num_cons, num_vars)
    &&& forall|j: int| 0 <= j < k ==> taken(#[trigger] m[j], num_cons, num_vars)
    &&& e == if inside(m[k], num_cons, num_vars) {
        R1CSError::InvalidScalar
    } else {
        R1CSError::InvalidIndex
    }
}

/// A matrix is taken if and only if all of its entries are; the error is that of
/// the first entry that is not.
pub proof fn law_matrix_refused(m: Seq<RawEntry>, num_cons: nat, num_vars: nat)
    ensures
        matrix_error(m, num_cons, num_vars) is None <==> forall|k: int|
            0 <= k < m.len() ==> taken(#[trigger] m[k], num_cons, num_vars),
        matrix_error(m, num_cons, num_vars) matches Some(e) ==> exists|k: int|
            first_refused(m, num_cons, num_vars, k, e),
    decreases m.len(),
{
    if m.len() > 0 {
        let m0 = m.drop_last();
        law_matrix_refused(m0, num_cons, num_vars);
        match matrix_error(m0, num_cons, num_vars) {
            Some(e) => {
                let k = choose|k: int| first_refused(m0, num_cons, num_vars, k, e);
                assert(!taken(m[k], num_cons, num_vars));
                assert forall|j: int| 0 <= j < k implies taken(
                    #[trigger] m[j],
                    num_cons,
                    num_vars,
                ) by {
                    assert(taken(m0[j], num_cons, num_vars));
                }
                assert(first_refused(m, num_cons, num_vars, k, e));
            },
            None => {
                assert forall|j: int| 0 <= j < m0.len() implies taken(
                    #[trigger] m[j],
                    num_cons,
                    num_vars,
                ) by {
                    assert(taken(m0[j], num_cons, num_vars));
                }
                match entry_error(m.last(), num_cons, num_vars) {
                    Some(e) => {
                        assert(first_refused(m, num_cons, num_vars, m.len() - 1, e));
                    },
                    None => {
                        assert(taken(m[m.len() - 1], num_cons, num_vars));
                    },
                }
            },
        }
    }
}

/// Instances are taken if and only if all of their matrices are; the error is
/// that of the first matrix that is not, instance by instance, left factors
/// before right ones and these before products.
pub proof fn law_instances_refused(
    a: Seq<Vec<RawEntry>>,
    b: Seq<Vec<RawEntry>>,
    c: Seq<Vec<RawEntry>>,
    num_cons: nat,
    num_vars: nat,
    n: nat,
)
    ensures
        first_error(a, b, c, num_cons, num_vars, n) is None <==> forall|p: int|
            0 <= p < n ==> matrix_error((#[trigger] a[p])@, num_cons, num_vars) is None
                && matrix_error(b[p]@, num_cons, num_vars) is None && matrix_error(
                c[p]@,
                num_cons,
                num_vars,
            ) is None,
        first_error(a, b, c, num_cons, num_vars, n) is Some ==> exists|p: int|
            0 <= p < n && first_error(a, b, c, num_cons, num_vars, p as nat) is None && {
                let (x, y, z) = (
                    matrix_error((#[trigger] a[p])@, num_cons, num_vars),
                    matrix_error(b[p]@, num_cons, num_vars),
                    matrix_error(c[p]@, num_cons, num_vars),
                );
                first_error(a, b, c, num_cons, num_vars, n) == if x is Some {
                    x
                } else if y is Some {
                    y
                } else {
                    z
                }
            },
    decreases n,
{
    if n > 0 {
        let m = (n - 1) as nat;
        law_instances_refused(a, b, c, num_cons, num_vars, m);
        let before = first_error(a, b, c, num_cons, num_vars, m);
        if before is None {
            let p = n - 1;
            assert(a[p] == a[p]);
            assert(p as nat == m);
        }
    }
}

/// The number of constraints is rounded up to the least power of two that is no
/// smaller, and is at least two.
pub proof fn law_constraints_rounded(n: nat, k: nat)
    requires
        pow2(k) >= n,
        pow2(k) >= 2,
    ensures
        n <= cons_padded(n) <= pow2(k),
        cons_padded(n) >= 2,
        exists|j: nat| cons_padded(n) == pow2(j),
{
    lemma_cons_padded(n);
    if n > 1 {
        law_rounded(n, k);
        assert(cons_padded(n) == pow2(log2_up(n)));
    } else {
        vstd::arithmetic::power2::lemma2_to64();
        assert(cons_padded(n) == pow2(1));
    }
}

/// A number is rounded up to the least power of two that is no smaller.
pub proof fn law_rounded(n: nat, k: nat)
    requires
        pow2(k) >= n,
    ensures
        n <= next_pow2(n) <= pow2(k),
        exists|j: nat| next_pow2(n) == pow2(j),
        log2_up(n) <= k,
{
    lemma_log2_up(n);
    let e = log2_up(n);
    assert(next_pow2(n) == pow2(e));
    if n > 1 {
        if k < e {
            if k < e - 1 {
                lemma_pow2_strictly_increases(k, (e - 1) as nat);
            }
        }
    }
    if e < k {
        lemma_pow2_strictly_increases(e, k);
    }
}

} // verus!
