//! Where a refused proof leaves the transcript.
use crate::bullet::replayed;
use crate::commitments::Gens;
use crate::group::{all_valid, CompressedGroup};
use crate::io_proofs::{proof_at, verify_claims, IOClaim, IOProofsView};
use crate::math::bits;
use crate::message_laws::{message, request, spoken};
use crate::nizk::{dot_opening, dot_verify, DotLog};
use crate::openings::{check_all, lemma_check_refused, Claim};
use crate::poly_eval::{eval_verify, plain_verify};
use crate::scalar::Scalar;
use crate::transcript::History;
use vstd::arithmetic::power2::pow2;
use vstd::prelude::*;
use vstd::string::StringSliceAdditionalSpecFns;

verus! {

/// A check of an inner product stops behind the first challenge where a
/// commitment is no group element or the cross commitments are not as many as
/// the vector calls for, and behind the cross commitments where one of these is
/// no group element. Else it takes in both masks and draws the last challenge,
/// whether or not the proof holds.
pub proof fn law_inner_product_outcome(
    gn: Gens,
    g1: Gens,
    a: Seq<Scalar>,
    cx: CompressedGroup,
    cy: CompressedGroup,
    p: DotLog,
    th: History,
)
    ensures
        ({
            let opened = dot_opening(a, cx, cy, th).1;
            let crossed = replayed(opened, p.l, p.r, p.l.len()).1;
            let counted = p.l.len() == p.r.len() && p.l.len() < 32 && a.len() == pow2(p.l.len());
            let proper = forall|i: int|
                0 <= i < p.l.len() ==> (#[trigger] p.l[i]).valid() && p.r[i].valid();
            let found = dot_verify(gn, g1, a, cx, cy, p, th);
            if !cx.valid() || !cy.valid() || !counted {
                found == (false, opened)
            } else if !proper {
                found == (false, crossed)
            } else {
                spoken(
                    crossed,
                    found.1,
                    seq![
                        message("delta", p.delta.encoding()),
                        message("beta", p.beta.encoding()),
                        request("c"),
                    ],
                )
            }
        }),
{
    reveal(dot_verify);
    if p.l.len() == p.r.len() {
        if forall|i: int| 0 <= i < p.l.len() ==> (#[trigger] p.l[i]).valid() && p.r[i].valid() {
            assert forall|i: int| 0 <= i < p.r.len() implies (#[trigger] p.r[i]).valid() by {
                assert(p.l[i].valid());
            }
            assert(all_valid(p.l));
            assert(all_valid(p.r));
        }
    }
}

/// A check of a value says its name, and stops there where the commitment has
/// another number of rows than the point calls for, or a row is no group
/// element.
pub proof fn law_value_outcome(
    gens: (Gens, Gens),
    r: Seq<Scalar>,
    cy: CompressedGroup,
    comm: Seq<CompressedGroup>,
    p: DotLog,
    th: History,
)
    ensures
        ({
            let start = th.push(
                message("protocol-name", "polynomial evaluation proof".spec_bytes()),
            );
            let proper = comm.len() == pow2(r.len() / 2) && forall|i: int|
                0 <= i < comm.len() ==> (#[trigger] comm[i]).valid();
            let found = eval_verify(gens, r, cy, comm, p, th);
            &&& !proper ==> found == (false, start)
            &&& proper ==> found.1.len() > start.len() && found.1.take(start.len() as int)
                == start
        }),
{
    reveal(eval_verify);
    reveal(dot_verify);
    let start = th.push(message("protocol-name", "polynomial evaluation proof".spec_bytes()));
    let a = crate::poly_eval::column_weights(r);
    let cx = crate::group::msm(crate::poly_eval::row_weights(r), comm);
    let found = eval_verify(gens, r, cy, comm, p, th);
    if comm.len() == pow2(r.len() / 2) && all_valid(comm) {
        crate::message_laws::law_inner_product_opened(a, cx, cy, start);
        let opened = dot_opening(a, cx, cy, start).1;
        lemma_replay_extends(opened, p.l, p.r, p.l.len(), start);
        assert(found.1.take(start.len() as int) =~= start);
    }
}

proof fn lemma_replay_extends(
    th: History,
    l: Seq<CompressedGroup>,
    r: Seq<CompressedGroup>,
    k: nat,
    start: History,
)
    requires
        th.len() > start.len(),
        forall|i: int| 0 <= i < start.len() ==> #[trigger] th[i] == start[i],
    ensures
        replayed(th, l, r, k).1.len() > start.len(),
        forall|i: int|
            0 <= i < start.len() ==> #[trigger] replayed(th, l, r, k).1[i] == start[i],
    decreases k,
{
    if k > 0 {
        lemma_replay_extends(th, l, r, (k - 1) as nat, start);
    }
}

/// Openings are checked one after the other, each from where the one before it
/// ended. The first one that is refused ends the check.
pub proof fn law_openings_outcome(
    gens: (Gens, Gens),
    claims: Seq<Claim>,
    ps: Seq<DotLog>,
    th: History,
    j: nat,
    k: nat,
)
    requires
        j < k <= claims.len(),
        check_all(gens, claims, ps, th, j).0,
    ensures
        check_all(gens, claims, ps, th, 0) == (true, th),
        ({
            let c = claims[j as int];
            let before = check_all(gens, claims, ps, th, j).1;
            let (held, after) = plain_verify(
                gens,
                c.point,
                c.value,
                c.comm,
                ps[j as int],
                before,
            );
            if held {
                check_all(gens, claims, ps, th, j + 1) == (true, after)
            } else {
                check_all(gens, claims, ps, th, k) == (false, after)
            }
        }),
{
    let c = claims[j as int];
    let before = check_all(gens, claims, ps, th, j).1;
    let (held, after) = plain_verify(gens, c.point, c.value, c.comm, ps[j as int], before);
    assert(check_all(gens, claims, ps, th, j + 1) == (held, after));
    if !held {
        lemma_check_refused(gens, claims, ps, th, j + 1, k);
    }
}

/// Claims about inputs and outputs are checked one after the other, each from
/// where the one before it ended. The first one that is refused ends the check.
pub proof fn law_claims_outcome(
    gens: (Gens, Gens),
    comm: Seq<CompressedGroup>,
    len: nat,
    claim: IOClaim,
    p: IOProofsView,
    th: History,
    j: nat,
    k: nat,
)
    requires
        j < k,
        verify_claims(gens, comm, len, claim, p, th, j).0,
    ensures
        verify_claims(gens, comm, len, claim, p, th, 0) == (true, th),
        ({
            let (x, v) = claim.at(j as int);
            let before = verify_claims(gens, comm, len, claim, p, th, j).1;
            let (held, after) = plain_verify(
                gens,
                bits(x, len),
                v,
                comm,
                proof_at(p, j as int),
                before,
            );
            if held {
                verify_claims(gens, comm, len, claim, p, th, j + 1) == (true, after)
            } else {
                verify_claims(gens, comm, len, claim, p, th, k) == (false, after)
            }
        }),
    decreases k,
{
    let (x, v) = claim.at(j as int);
    let before = verify_claims(gens, comm, len, claim, p, th, j).1;
    let out = plain_verify(gens, bits(x, len), v, comm, proof_at(p, j as int), before);
    assert(verify_claims(gens, comm, len, claim, p, th, j + 1) == out);
    if !out.0 && k > j + 1 {
        law_claims_outcome(gens, comm, len, claim, p, th, j, (k - 1) as nat);
    }
}

} // verus!
