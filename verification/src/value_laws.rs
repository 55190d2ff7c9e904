//! What values, commitments and assignments are made of.
use crate::commitments::{commitment, Gens};
use crate::dense_mlpoly::{evaluation, left_vars, right_vars};
use crate::field::{mul_zero, neutral};
use crate::group::{encodes_uniquely, logs};
use crate::math::lemma_log2_of_pow2;
use crate::opening_laws::lemma_row_logs;
use crate::poly_laws::{lemma_dot_two, lemma_one_weight};
use crate::r1csinstance::{assignment, R1CS};
use crate::r1csproof::middle_prove;
use crate::scalar::{sadd, smul, sone, ssub, szero, Scalar};
use crate::sparse_mlpoly::{encoded_instance, mem_cells, plain_commitment, R1CSCommitmentGens};
use crate::table_laws::law_table_value;
use crate::transcript::{challenge, drawn, History};
use crate::vectors::{dot, flat, lemma_sum_canonical, pointwise, repeated};
use vstd::arithmetic::power2::pow2;
use vstd::prelude::*;

verus! {

/// The value of a polynomial is, along its first coordinate, on the line through
/// the values of its two halves at the other coordinates.
pub proof fn law_value_splits(a: Seq<Scalar>, b: Seq<Scalar>, x: Scalar, rest: Seq<Scalar>)
    requires
        a.len() == pow2(rest.len()),
        b.len() == pow2(rest.len()),
        x.canonical(),
    ensures
        evaluation(a + b, seq![x] + rest) == sadd(
            smul(ssub(sone(), x), evaluation(a, rest)),
            smul(x, evaluation(b, rest)),
        ),
{
    let m = seq![a, b];
    vstd::arithmetic::power2::lemma2_to64();
    reveal_with_fuel(flat, 3);
    assert(m.drop_last() =~= seq![a]);
    assert(seq![a].drop_last() =~= Seq::<Seq<Scalar>>::empty());
    assert(flat(m) =~= a + b);
    law_table_value(m, seq![x], rest);
    let vals = m.map_values(|row: Seq<Scalar>| evaluation(row, rest));
    assert(vals =~= seq![evaluation(a, rest), evaluation(b, rest)]);
    lemma_one_weight(x);
    lemma_dot_two(ssub(sone(), x), x, evaluation(a, rest), evaluation(b, rest));
}

/// A polynomial without coordinates has its one value.
pub proof fn law_value_alone(a: Scalar)
    requires
        a.canonical(),
    ensures
        evaluation(seq![a], Seq::empty()) == a,
{
    crate::r1cs_laws::lemma_value_nowhere(seq![a]);
}

/// An assignment is made of the variables, a one, the inputs, and zeros.
pub proof fn law_assignment_layout(vars: Seq<Scalar>, input: Seq<Scalar>, size: nat, i: int)
    requires
        vars.len() + 1 + input.len() <= size,
        0 <= i < size,
    ensures
        assignment(vars, input, size).len() == size,
        assignment(vars, input, size)[i] == if i < vars.len() {
            vars[i]
        } else if i == vars.len() {
            sone()
        } else if i < vars.len() + 1 + input.len() {
            input[i - vars.len() - 1]
        } else {
            szero()
        },
{
}

/// A commitment to a polynomial commits to its values row by row: as a group
/// element, each row is the combination of the generators by the values.
pub proof fn law_rows_committed(z: Seq<Scalar>, gens: Gens, ell: nat, i: int)
    requires
        encodes_uniquely(),
        z.len() == pow2(ell),
        pow2(right_vars(ell)) <= gens.g.len(),
        0 <= i < pow2(left_vars(ell)),
    ensures
        ({
            let w = pow2((ell - ell / 2) as nat);
            let comm = plain_commitment(z, gens);
            &&& comm.len() == pow2((ell / 2) as nat)
            &&& comm[i].valid()
            &&& comm[i].log() == dot(
                logs(gens.g.take(w as int)),
                Seq::new(w, |j: int| z[i * w + j]),
            )
        }),
{
    let n = pow2(left_vars(ell));
    let w = pow2(right_vars(ell));
    lemma_log2_of_pow2(ell);
    let blinds = repeated(szero(), n);
    lemma_row_logs(z, blinds, gens, ell, i);
    mul_zero(gens.h.log());
    let d = dot(logs(gens.g.take(w as int)), Seq::new(w, |j: int| z[i * w + j]));
    lemma_sum_canonical(
        pointwise(logs(gens.g.take(w as int)), Seq::new(w, |j: int| z[i * w + j])),
    );
    neutral(d);
}

/// What is encoded of an instance goes together: the commitments are those to
/// the polynomials of the reads and of the final stamps that open them, and the
/// sizes are those of the instance and of these lists.
pub proof fn law_encoding_consistent(i: R1CS, gens: R1CSCommitmentGens)
    ensures
        ({
            let (c, d) = encoded_instance(i, gens);
            &&& c.num_cons == i.num_cons
            &&& c.num_vars == i.num_vars
            &&& c.batch_size == 3
            &&& d.val.len() == c.batch_size * c.num_ops
            &&& d.row.ops.len() == c.batch_size * c.num_ops
            &&& d.col.ops.len() == c.batch_size * c.num_ops
            &&& d.row.audits.len() == c.num_mem_cells
            &&& d.col.audits.len() == c.num_mem_cells
            &&& c.ops == plain_commitment(d.ops, gens.gens_ops@.0)
            &&& c.mem == plain_commitment(d.mem, gens.gens_mem@.0)
            &&& d == crate::sparse_mlpoly::instance_decommitment(i)
        }),
{
}

/// The memory that an instance reads has a cell for each row of each of its
/// instances and one for each column, and no more than the larger number.
pub proof fn law_cells_suffice(i: R1CS)
    ensures
        mem_cells(i) >= i.num_instances * i.num_cons,
        mem_cells(i) >= i.num_vars,
        mem_cells(i) == i.num_instances * i.num_cons || mem_cells(i) == i.num_vars,
{
}

/// The claims between two sum-checks are committed to under blinds that are
/// drawn from the tape, one after the other.
pub proof fn law_middle_hides(
    g1: Gens,
    tau: Scalar,
    az: Scalar,
    bz: Scalar,
    cz: Scalar,
    blind_post: Scalar,
    th: History,
    rh: History,
)
    ensures
        ({
            let m = middle_prove(g1, tau, az, bz, cz, blind_post, th, rh);
            let rh1 = drawn(rh, "Az_blind"@);
            let rh2 = drawn(rh1, "Bz_blind"@);
            let rh3 = drawn(rh2, "Cz_blind"@);
            &&& m.claims.comm_az == commitment(seq![az], challenge(rh, "Az_blind"@), g1)
            &&& m.claims.comm_bz == commitment(seq![bz], challenge(rh1, "Bz_blind"@), g1)
            &&& m.claims.comm_cz == commitment(seq![cz], challenge(rh2, "Cz_blind"@), g1)
            &&& m.claims.comm_prod == commitment(
                seq![smul(az, bz)],
                challenge(rh3, "prod_Az_Bz_blind"@),
                g1,
            )
        }),
{
    reveal(middle_prove);
}

} // verus!
