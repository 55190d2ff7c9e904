//! What the public parameters are made of, and how many there are.
use crate::commitments::{derived_gens, Gens};
use crate::group::{basepoint_encoding, from_uniform, shake256_byte, CompressedGroup};
use crate::instance::derived_parameters;
use crate::math::{lemma_log2_of_pow2, log2_up, next_pow2};
use crate::sparse_mlpoly::{deref_vars, mem_vars, ops_vars};
use vstd::arithmetic::power2::pow2;
use vstd::prelude::*;
use vstd::string::StringSliceAdditionalSpecFns;

verus! {

/// Whether a point is the one that the 64 bytes from `64 i` on yield, of the
/// stream that the hash of a label and the base point gives.
pub open spec fn from_stream(p: CompressedGroup, label: Seq<u8>, i: int) -> bool {
    p == from_uniform(
        Seq::new(64, |j: int| shake256_byte(label + basepoint_encoding(), (64 * i + j) as nat)),
    )
}

/// Whether generators are `n` consecutive ones of the stream of a label, from
/// position `from` on, with the generator of blinds at a position of its own.
pub open spec fn consecutive(g: Gens, label: Seq<u8>, from: int, n: nat, blind: int) -> bool {
    &&& g.g.len() == n
    &&& forall|i: int| 0 <= i < n ==> from_stream(#[trigger] g.g[i], label, from + i)
    &&& from_stream(g.h, label, blind)
}

/// Generators that are derived from a label are the first ones of its stream,
/// with that of blinds behind them.
pub proof fn law_generators_from_stream(label: Seq<u8>, n: nat)
    ensures
        consecutive(derived_gens(label, n), label, 0, n, n as int),
{
}

/// The number of columns of the matrix that values of `2^ell` are arranged in.
pub open spec fn columns(ell: nat) -> nat {
    pow2((ell - ell / 2) as nat)
}

/// The parameters for instances of some size: those for witnesses come from one
/// label and those for instances from another. There are as many as columns of
/// the polynomials, one more for a value, and one for blinds.
pub proof fn law_parameters_from_streams(
    num_cons: nat,
    num_vars: nat,
    num_instances: nat,
    num_nz_entries: nat,
)
    ensures
        ({
            let p = derived_parameters(num_cons, num_vars, num_instances, num_nz_entries);
            let (sat, eval) = ("gens_r1cs_sat".spec_bytes(), "gens_r1cs_eval".spec_bytes());
            let vars = next_pow2(num_vars);
            let n = columns(log2_up(vars));
            let ops = columns(ops_vars(num_nz_entries));
            let mem = columns(mem_vars(next_pow2(num_instances), num_cons, vars));
            let derefs = columns(deref_vars(num_nz_entries));
            &&& consecutive(p.sat_pc.0, sat, 0, n, n as int + 1)
            &&& consecutive(p.sat_pc.1, sat, n as int, 1, n as int + 1)
            &&& p.sat_1 == p.sat_pc.1
            &&& consecutive(p.sat_3, sat, 0, 3, 3)
            &&& consecutive(p.sat_4, sat, 0, 4, 4)
            &&& consecutive(p.eval_ops.0, eval, 0, ops, ops as int + 1)
            &&& consecutive(p.eval_ops.1, eval, ops as int, 1, ops as int + 1)
            &&& consecutive(p.eval_mem.0, eval, 0, mem, mem as int + 1)
            &&& consecutive(p.eval_mem.1, eval, mem as int, 1, mem as int + 1)
            &&& consecutive(p.eval_derefs.0, eval, 0, derefs, derefs as int + 1)
            &&& consecutive(p.eval_derefs.1, eval, derefs as int, 1, derefs as int + 1)
        }),
{
}

/// How many values the polynomials that are committed to for an instance have
/// room for: sixteen for each entry of the fullest matrix, of which fifteen are
/// taken, eight for what is read, of which six are taken, and two for each cell.
pub proof fn law_parameter_sizes(
    num_instances: nat,
    num_cons: nat,
    num_vars: nat,
    num_nz_entries: nat,
)
    ensures
        pow2(ops_vars(num_nz_entries)) == 16 * next_pow2(num_nz_entries),
        pow2(deref_vars(num_nz_entries)) == 8 * next_pow2(num_nz_entries),
        ({
            let (x, y) = (next_pow2(num_instances) * next_pow2(num_cons), next_pow2(num_vars));
            pow2(mem_vars(num_instances, num_cons, num_vars)) == 2 * if x > y {
                x
            } else {
                y
            }
        }),
{
    vstd::arithmetic::power2::lemma2_to64();
    let k = log2_up(num_nz_entries);
    lemma_log2_of_pow2(k);
    vstd::arithmetic::power2::lemma_pow2_adds(k, 4);
    vstd::arithmetic::power2::lemma_pow2_adds(k, 3);
    let (a, b, c) = (log2_up(num_instances), log2_up(num_cons), log2_up(num_vars));
    vstd::arithmetic::power2::lemma_pow2_adds(a, b);
    vstd::arithmetic::power2::lemma_pow2_unfold(a + b + 1);
    vstd::arithmetic::power2::lemma_pow2_unfold(c + 1);
    if a + b > c {
        vstd::arithmetic::power2::lemma_pow2_strictly_increases(c, a + b);
    } else if a + b < c {
        vstd::arithmetic::power2::lemma_pow2_strictly_increases(a + b, c);
    }
}

} // verus!
