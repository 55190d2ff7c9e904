//! What is claimed of the first and the last block of an execution.
use crate::accept_laws::claim_true;
use crate::commitments::Gens;
use crate::group::CompressedGroup;
use crate::io_proofs::{
    claims_proved, proof_at, prove_claims, verify_claims, IOClaim, IOProofsView,
};
use crate::math::bits;
use crate::nizk::DotLog;
use crate::poly_eval::{plain_prove, plain_verify};
use crate::scalar::{lemma_constants, sone, Scalar};
use crate::transcript::History;
use vstd::prelude::*;

verus! {

/// Whether a list holds a reduced value at a position.
pub open spec fn holds_value(z: Seq<Scalar>, at: int, value: Scalar) -> bool {
    &&& 0 <= at < z.len()
    &&& value.canonical()
    &&& z[at] == value
}

/// What is claimed of an execution is true if and only if its first block is
/// valid, has the number that is claimed and the inputs that are claimed behind
/// it, and the block that is named as the last one is valid and has, behind the
/// cutoff, the number and the outputs that are claimed.
pub proof fn law_claims_written_out(claim: IOClaim, z: Seq<Scalar>)
    requires
        claim.wf(),
    ensures
        claim_true(claim, z) <==> {
            let last = (claim.output_block_index * claim.num_vars) as int;
            &&& holds_value(z, 0, sone())
            &&& holds_value(z, 1, claim.input_block_num)
            &&& forall|i: int|
                0 <= i < claim.cutoff - 2 ==> holds_value(z, 2 + i, #[trigger] claim.input[i])
            &&& holds_value(z, last, sone())
            &&& holds_value(z, last + claim.cutoff + 1, claim.output_block_num)
            &&& forall|i: int|
                0 <= i < claim.cutoff - 2 ==> holds_value(
                    z,
                    last + claim.cutoff + 2 + i,
                    #[trigger] claim.output[i],
                )
        },
{
    lemma_constants();
    let last = (claim.output_block_index * claim.num_vars) as int;
    if claim_true(claim, z) {
        assert(claim.at(0).0 < z.len());
        assert(claim.at(1).0 < z.len());
        assert(claim.at(2).0 < z.len());
        assert(claim.at(3).0 < z.len());
        assert forall|i: int| 0 <= i < claim.cutoff - 2 implies holds_value(
            z,
            2 + i,
            #[trigger] claim.input[i],
        ) by {
            assert(claim.at(4 + 2 * i).0 < z.len());
        }
        assert forall|i: int| 0 <= i < claim.cutoff - 2 implies holds_value(
            z,
            last + claim.cutoff + 2 + i,
            #[trigger] claim.output[i],
        ) by {
            assert(claim.at(5 + 2 * i).0 < z.len());
        }
    }
    if holds_value(z, 0, sone()) && holds_value(z, 1, claim.input_block_num) && (forall|i: int|
        0 <= i < claim.cutoff - 2 ==> holds_value(z, 2 + i, #[trigger] claim.input[i]))
        && holds_value(z, last, sone()) && holds_value(
        z,
        last + claim.cutoff + 1,
        claim.output_block_num,
    ) && (forall|i: int|
        0 <= i < claim.cutoff - 2 ==> holds_value(
            z,
            last + claim.cutoff + 2 + i,
            #[trigger] claim.output[i],
        )) {
        assert forall|k: int| 0 <= k < claim.count() implies (#[trigger] claim.at(k)).0 < z.len()
            && claim.at(k).1.canonical() && z[claim.at(k).0 as int] == claim.at(k).1 by {
            if k >= 4 {
                let i = (k - 4) / 2;
                assert(0 <= i < claim.cutoff - 2);
                assert(holds_value(z, 2 + i, claim.input[i]));
                assert(holds_value(z, last + claim.cutoff + 2 + i, claim.output[i]));
            }
        }
    }
}

/// Whether a proof shows a value at a position of a committed list, from some
/// transcript.
pub open spec fn shown(
    gens: (Gens, Gens),
    comm: Seq<CompressedGroup>,
    len: nat,
    at: int,
    value: Scalar,
    p: DotLog,
) -> bool {
    exists|th: History|
        0 <= at && #[trigger] plain_verify(gens, bits(at as nat, len), value, comm, p, th).0
}

/// A check of the first claims that holds holds of each of them.
proof fn lemma_each_checked(
    gens: (Gens, Gens),
    comm: Seq<CompressedGroup>,
    len: nat,
    claim: IOClaim,
    p: IOProofsView,
    th: History,
    k: nat,
    j: int,
)
    requires
        verify_claims(gens, comm, len, claim, p, th, k).0,
        0 <= j < k,
    ensures
        shown(gens, comm, len, claim.at(j).0 as int, claim.at(j).1, proof_at(p, j)),
    decreases k,
{
    let (held, th1) = verify_claims(gens, comm, len, claim, p, th, (k - 1) as nat);
    if j < k - 1 {
        lemma_each_checked(gens, comm, len, claim, p, th, (k - 1) as nat, j);
    } else {
        let (x, v) = claim.at(j);
        assert(plain_verify(gens, bits(x, len), v, comm, proof_at(p, j), th1).0);
    }
}

/// Claims about inputs and outputs that are accepted are shown one by one: that
/// the first block and the last one are valid, their numbers, each input and
/// each output, at their positions in the committed execution. Where one of
/// them is not shown, all are refused.
pub proof fn law_claims_shown(
    gens: (Gens, Gens),
    comm: Seq<CompressedGroup>,
    len: nat,
    claim: IOClaim,
    p: IOProofsView,
    th: History,
)
    requires
        claim.wf(),
        verify_claims(gens, comm, len, claim, p, th, claim.count()).0,
    ensures
        ({
            let last = (claim.output_block_index * claim.num_vars) as int;
            &&& shown(gens, comm, len, 0, sone(), p.input_valid)
            &&& shown(gens, comm, len, 1, claim.input_block_num, p.input_block_num)
            &&& forall|i: int|
                0 <= i < claim.cutoff - 2 ==> shown(
                    gens,
                    comm,
                    len,
                    2 + i,
                    #[trigger] claim.input[i],
                    p.inputs[i],
                )
            &&& shown(gens, comm, len, last, sone(), p.output_valid)
            &&& shown(
                gens,
                comm,
                len,
                last + claim.cutoff + 1,
                claim.output_block_num,
                p.output_block_num,
            )
            &&& forall|i: int|
                0 <= i < claim.cutoff - 2 ==> shown(
                    gens,
                    comm,
                    len,
                    last + claim.cutoff + 2 + i,
                    #[trigger] claim.output[i],
                    p.outputs[i],
                )
        }),
{
    let k = claim.count();
    let last = (claim.output_block_index * claim.num_vars) as int;
    lemma_each_checked(gens, comm, len, claim, p, th, k, 0);
    lemma_each_checked(gens, comm, len, claim, p, th, k, 1);
    lemma_each_checked(gens, comm, len, claim, p, th, k, 2);
    lemma_each_checked(gens, comm, len, claim, p, th, k, 3);
    assert forall|i: int| 0 <= i < claim.cutoff - 2 implies shown(
        gens,
        comm,
        len,
        2 + i,
        #[trigger] claim.input[i],
        p.inputs[i],
    ) by {
        lemma_each_checked(gens, comm, len, claim, p, th, k, 4 + 2 * i);
    }
    assert forall|i: int| 0 <= i < claim.cutoff - 2 implies shown(
        gens,
        comm,
        len,
        last + claim.cutoff + 2 + i,
        #[trigger] claim.output[i],
        p.outputs[i],
    ) by {
        lemma_each_checked(gens, comm, len, claim, p, th, k, 5 + 2 * i);
    }
}

/// Whether a proof is one of a value at a position of a list, from some
/// transcript and tape.
pub open spec fn made(
    gens: (Gens, Gens),
    z: Seq<Scalar>,
    len: nat,
    at: int,
    value: Scalar,
    p: DotLog,
) -> bool {
    exists|th: History, rh: History|
        0 <= at && p == #[trigger] plain_prove(gens, z, bits(at as nat, len), value, th, rh).proof
}

proof fn lemma_each_made(
    gens: (Gens, Gens),
    z: Seq<Scalar>,
    len: nat,
    claim: IOClaim,
    th: History,
    rh: History,
    k: nat,
    j: int,
)
    requires
        0 <= j < k,
    ensures
        prove_claims(gens, z, len, claim, th, rh, k).0.len() == k,
        made(
            gens,
            z,
            len,
            claim.at(j).0 as int,
            claim.at(j).1,
            prove_claims(gens, z, len, claim, th, rh, k).0[j],
        ),
    decreases k,
{
    let p = (k - 1) as nat;
    let (ps, th1, rh1) = prove_claims(gens, z, len, claim, th, rh, p);
    if p > 0 {
        lemma_each_made(gens, z, len, claim, th, rh, p, 0);
    }
    let (x, v) = claim.at(k - 1);
    if j < p {
        lemma_each_made(gens, z, len, claim, th, rh, p, j);
    } else {
        assert(plain_prove(gens, z, bits(x, len), v, th1, rh1).proof == prove_claims(
            gens,
            z,
            len,
            claim,
            th,
            rh,
            k,
        ).0[j]);
    }
}

/// The proofs of claims about inputs and outputs are, one by one, those of the
/// values that are claimed at their positions in the execution.
pub proof fn law_claims_made(
    gens: (Gens, Gens),
    z: Seq<Scalar>,
    len: nat,
    claim: IOClaim,
    th: History,
    rh: History,
    p: IOProofsView,
    after: History,
)
    requires
        claim.wf(),
        claims_proved(gens, z, len, claim, th, rh, p, after),
    ensures
        ({
            let last = (claim.output_block_index * claim.num_vars) as int;
            &&& p.inputs.len() == claim.cutoff - 2
            &&& p.outputs.len() == claim.cutoff - 2
            &&& made(gens, z, len, 0, sone(), p.input_valid)
            &&& made(gens, z, len, 1, claim.input_block_num, p.input_block_num)
            &&& forall|i: int|
                0 <= i < claim.cutoff - 2 ==> made(
                    gens,
                    z,
                    len,
                    2 + i,
                    #[trigger] claim.input[i],
                    p.inputs[i],
                )
            &&& made(gens, z, len, last, sone(), p.output_valid)
            &&& made(
                gens,
                z,
                len,
                last + claim.cutoff + 1,
                claim.output_block_num,
                p.output_block_num,
            )
            &&& forall|i: int|
                0 <= i < claim.cutoff - 2 ==> made(
                    gens,
                    z,
                    len,
                    last + claim.cutoff + 2 + i,
                    #[trigger] claim.output[i],
                    p.outputs[i],
                )
        }),
{
    let k = claim.count();
    let last = (claim.output_block_index * claim.num_vars) as int;
    assert(proof_at(p, 0) == p.input_valid);
    assert(proof_at(p, 1) == p.output_valid);
    assert(proof_at(p, 2) == p.input_block_num);
    assert(proof_at(p, 3) == p.output_block_num);
    lemma_each_made(gens, z, len, claim, th, rh, k, 0);
    lemma_each_made(gens, z, len, claim, th, rh, k, 1);
    lemma_each_made(gens, z, len, claim, th, rh, k, 2);
    lemma_each_made(gens, z, len, claim, th, rh, k, 3);
    assert forall|i: int| 0 <= i < claim.cutoff - 2 implies made(
        gens,
        z,
        len,
        2 + i,
        #[trigger] claim.input[i],
        p.inputs[i],
    ) by {
        assert(proof_at(p, 4 + 2 * i) == p.inputs[i]);
        lemma_each_made(gens, z, len, claim, th, rh, k, 4 + 2 * i);
    }
    assert forall|i: int| 0 <= i < claim.cutoff - 2 implies made(
        gens,
        z,
        len,
        last + claim.cutoff + 2 + i,
        #[trigger] claim.output[i],
        p.outputs[i],
    ) by {
        assert(proof_at(p, 5 + 2 * i) == p.outputs[i]);
        lemma_each_made(gens, z, len, claim, th, rh, k, 5 + 2 * i);
    }
}

} // verus!
