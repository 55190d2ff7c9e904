//! The check of a proof has one outcome.
use crate::comms::WitnessComms;
use crate::errors::ProofVerifyError;
use crate::jobs::{Challenges, CheckTask, EvalCheck, SatCheck};
use crate::parts::PartProof;
use crate::scalar::Scalar;
use crate::snark::{snark_accepted, snark_refused, SNARK};
use crate::snark_laws::{law_addresses_unchecked, same_but_addresses, same_point};
use crate::snark_verify::{
    eval_asked, part_checked, part_refused, parts_checked, parts_refused, sat_asked, CheckTrace,
    VerifierInput,
};
use crate::sparse_mlpoly::{R1CSCommitment, R1CSCommitmentGens};
use crate::statement::NUM_PARTS;
use crate::transcript::{history, History};
use merlin::Transcript;
use vstd::prelude::*;

verus! {

/// Whether two answers about satisfiability are the same.
pub open spec fn same_sat_reply(
    a: (Result<Challenges, ProofVerifyError>, Transcript),
    b: (Result<Challenges, ProofVerifyError>, Transcript),
) -> bool {
    &&& history(a.1) == history(b.1)
    &&& match (a.0, b.0) {
        (Ok(x), Ok(y)) => same_point(x, y),
        (Err(x), Err(y)) => x == y,
        _ => false,
    }
}

/// Whether a check of satisfiability answers alike wherever it is asked alike,
/// from transcripts with one history.
pub open spec fn sat_determined<
    P,
    F: Fn(SatCheck<'_>, &P, Transcript) -> (Result<Challenges, ProofVerifyError>, Transcript),
>(sat: F) -> bool {
    forall|
        task: CheckTask,
        proof: P,
        t: Transcript,
        u: Transcript,
        a: (Result<Challenges, ProofVerifyError>, Transcript),
        b: (Result<Challenges, ProofVerifyError>, Transcript),
    | #[trigger]
        sat_asked(sat, task, proof, t, a) && #[trigger] sat_asked(sat, task, proof, u, b)
            && history(t) == history(u) ==> same_sat_reply(a, b)
}

/// Whether a check of the values of matrices answers alike wherever it is asked
/// alike, from transcripts with one history.
pub open spec fn eval_determined<
    E,
    H: Fn(EvalCheck<'_>, &E, Transcript) -> (Result<(), ProofVerifyError>, Transcript),
>(eval: H) -> bool {
    forall|
        comm: R1CSCommitment,
        gens: R1CSCommitmentGens,
        rx: Seq<Scalar>,
        ry: Seq<Scalar>,
        evals: (Scalar, Scalar, Scalar),
        proof: E,
        t: Transcript,
        u: Transcript,
        a: (Result<(), ProofVerifyError>, Transcript),
        b: (Result<(), ProofVerifyError>, Transcript),
    | #[trigger]
        eval_asked(eval, comm, gens, rx, ry, evals, proof, t, a) && #[trigger]
        eval_asked(eval, comm, gens, rx, ry, evals, proof, u, b) && history(t) == history(u)
            ==> a.0 == b.0 && history(a.1) == history(b.1)
}

/// Two checks of one part, from transcripts with one history, go equally far.
/// Each passed the steps before `p` and `q`.
proof fn lemma_part_same<
    P,
    E,
    F: Fn(SatCheck<'_>, &P, Transcript) -> (Result<Challenges, ProofVerifyError>, Transcript),
    H: Fn(EvalCheck<'_>, &E, Transcript) -> (Result<(), ProofVerifyError>, Transcript),
>(
    v: VerifierInput<'_>,
    c: WitnessComms,
    tau: Scalar,
    r: Scalar,
    sat: F,
    eval: H,
    s: int,
    a: CheckTrace,
    b: CheckTrace,
    parts: Seq<PartProof<P, E>>,
    p: nat,
    q: nat,
    e: ProofVerifyError,
    f: ProofVerifyError,
)
    requires
        sat_determined::<P, F>(sat),
        eval_determined::<E, H>(eval),
        history(a.before) == history(b.before),
        1 <= p <= 6,
        1 <= q <= 6,
        part_checked(v, c, tau, r, sat, eval, s, a, parts, (p - 1) as nat),
        part_checked(v, c, tau, r, sat, eval, s, b, parts, (q - 1) as nat),
    ensures
        p == 6 && q == 6 ==> history(a.after) == history(b.after),
        p < q ==> !part_refused(v, c, tau, r, sat, eval, s, a, parts, p, e),
        q < p ==> !part_refused(v, c, tau, r, sat, eval, s, b, parts, q, f),
        p == q && part_refused(v, c, tau, r, sat, eval, s, a, parts, p, e) && part_refused(
            v,
            c,
            tau,
            r,
            sat,
            eval,
            s,
            b,
            parts,
            q,
            f,
        ) ==> e == f && history(a.reached(p)) == history(b.reached(q)),
{
    reveal(part_checked);
    reveal(part_refused);
}

/// Two checks of all parts, from transcripts with one history, keep one
/// history as long as both go on.
proof fn lemma_parts_same<
    P,
    E,
    F: Fn(SatCheck<'_>, &P, Transcript) -> (Result<Challenges, ProofVerifyError>, Transcript),
    H: Fn(EvalCheck<'_>, &E, Transcript) -> (Result<(), ProofVerifyError>, Transcript),
>(
    v: VerifierInput<'_>,
    c: WitnessComms,
    tau: Scalar,
    r: Scalar,
    sat: F,
    eval: H,
    a: Seq<CheckTrace>,
    b: Seq<CheckTrace>,
    parts: Seq<PartProof<P, E>>,
    k: nat,
)
    requires
        sat_determined::<P, F>(sat),
        eval_determined::<E, H>(eval),
        a.len() >= 1,
        b.len() >= 1,
        history(a[0].before) == history(b[0].before),
        parts_checked(v, c, tau, r, sat, eval, a, parts, k),
        parts_checked(v, c, tau, r, sat, eval, b, parts, k),
    ensures
        k < a.len() && k < b.len() ==> history(a[k as int].before) == history(b[k as int].before),
        k >= 1 ==> history(a[k - 1].after) == history(b[k - 1].after),
    decreases k,
{
    if k >= 1 {
        let s = k - 1;
        lemma_parts_same(v, c, tau, r, sat, eval, a, b, parts, s as nat);
        let e = ProofVerifyError::InternalError;
        assert(part_checked(v, c, tau, r, sat, eval, s, a[s], parts, 5));
        assert(part_checked(v, c, tau, r, sat, eval, s, b[s], parts, 5));
        lemma_part_same(v, c, tau, r, sat, eval, s, a[s], b[s], parts, 6, 6, e, e);
        if k < a.len() && k < b.len() {
            assert(a[k as int].before == a[k - 1].after);
            assert(b[k as int].before == b[k - 1].after);
        }
    }
}

/// A check that refuses a part is not matched by one that passes it.
proof fn lemma_refusal_stands<
    P,
    E,
    F: Fn(SatCheck<'_>, &P, Transcript) -> (Result<Challenges, ProofVerifyError>, Transcript),
    H: Fn(EvalCheck<'_>, &E, Transcript) -> (Result<(), ProofVerifyError>, Transcript),
>(
    v: VerifierInput<'_>,
    c: WitnessComms,
    tau: Scalar,
    r: Scalar,
    sat: F,
    eval: H,
    a: Seq<CheckTrace>,
    b: Seq<CheckTrace>,
    parts: Seq<PartProof<P, E>>,
    step: nat,
    e: ProofVerifyError,
    k: nat,
)
    requires
        sat_determined::<P, F>(sat),
        eval_determined::<E, H>(eval),
        a.len() >= 1,
        b.len() >= 1,
        history(a[0].before) == history(b[0].before),
        parts_checked(v, c, tau, r, sat, eval, a, parts, k),
        b.len() <= k,
    ensures
        !parts_refused(v, c, tau, r, sat, eval, b, parts, step, e),
{
    if parts_refused(v, c, tau, r, sat, eval, b, parts, step, e) {
        let s = b.len() - 1;
        assert(parts_checked(v, c, tau, r, sat, eval, a, parts, s as nat));
        lemma_parts_same(v, c, tau, r, sat, eval, a, b, parts, s as nat);
        assert(part_checked(v, c, tau, r, sat, eval, s, a[s], parts, 5));
        lemma_part_same(v, c, tau, r, sat, eval, s, a[s], b[s], parts, 6, step, e, e);
    }
}

/// Two refusals of parts are the same.
proof fn lemma_refusals_same<
    P,
    E,
    F: Fn(SatCheck<'_>, &P, Transcript) -> (Result<Challenges, ProofVerifyError>, Transcript),
    H: Fn(EvalCheck<'_>, &E, Transcript) -> (Result<(), ProofVerifyError>, Transcript),
>(
    v: VerifierInput<'_>,
    c: WitnessComms,
    tau: Scalar,
    r: Scalar,
    sat: F,
    eval: H,
    a: Seq<CheckTrace>,
    b: Seq<CheckTrace>,
    parts: Seq<PartProof<P, E>>,
    p: nat,
    q: nat,
    e: ProofVerifyError,
    f: ProofVerifyError,
)
    requires
        sat_determined::<P, F>(sat),
        eval_determined::<E, H>(eval),
        history(a[0].before) == history(b[0].before),
        parts_refused(v, c, tau, r, sat, eval, a, parts, p, e),
        parts_refused(v, c, tau, r, sat, eval, b, parts, q, f),
    ensures
        e == f,
        history(a.last().reached(p)) == history(b.last().reached(q)),
{
    if a.len() < b.len() {
        let k = (b.len() - 1) as nat;
        lemma_refusal_stands(v, c, tau, r, sat, eval, b, a, parts, p, e, k);
    } else if b.len() < a.len() {
        let k = (a.len() - 1) as nat;
        lemma_refusal_stands(v, c, tau, r, sat, eval, a, b, parts, q, f, k);
    } else {
        let s = a.len() - 1;
        lemma_parts_same(v, c, tau, r, sat, eval, a, b, parts, s as nat);
        lemma_part_same(v, c, tau, r, sat, eval, s, a[s], b[s], parts, p, q, e, f);
    }
}

/// Where the checks that are handed in answer alike whenever they are asked
/// alike, the check of a proof has one outcome: from transcripts with one
/// history, two verifiers that are told the same, but for the number of
/// constraints and the generators of the combinations of addresses, both accept
/// or both refuse, with one error, and leave transcripts with one history.
pub proof fn law_check_determined<
    P,
    E,
    F: Fn(SatCheck<'_>, &P, Transcript) -> (Result<Challenges, ProofVerifyError>, Transcript),
    H: Fn(EvalCheck<'_>, &E, Transcript) -> (Result<(), ProofVerifyError>, Transcript),
>(
    v: VerifierInput<'_>,
    w: VerifierInput<'_>,
    h: History,
    sat: F,
    eval: H,
    proof: SNARK<P, E>,
    a: Seq<CheckTrace>,
    b: Seq<CheckTrace>,
    p: nat,
    q: nat,
    e: ProofVerifyError,
    f: ProofVerifyError,
    after: History,
    other: History,
)
    requires
        same_but_addresses(v, w),
        sat_determined::<P, F>(sat),
        eval_determined::<E, H>(eval),
    ensures
        snark_accepted(v, h, sat, eval, a, proof, after) && snark_accepted(
            w,
            h,
            sat,
            eval,
            b,
            proof,
            other,
        ) ==> after == other,
        !(snark_accepted(v, h, sat, eval, a, proof, after) && snark_refused(
            w,
            h,
            sat,
            eval,
            b,
            q,
            proof,
            f,
            other,
        )),
        snark_refused(v, h, sat, eval, a, p, proof, e, after) && snark_refused(
            w,
            h,
            sat,
            eval,
            b,
            q,
            proof,
            f,
            other,
        ) ==> e == f && after == other,
{
    law_addresses_unchecked(v, w, h, sat, eval, b, q, proof, f, other);
    let c = proof.comms();
    let (tau, r) = (v.tau(h, c), v.r(h, c));
    let parts = proof.part_proofs();
    let n = NUM_PARTS as nat;
    if snark_accepted(v, h, sat, eval, a, proof, after) {
        if snark_accepted(v, h, sat, eval, b, proof, other) {
            lemma_parts_same(v, c, tau, r, sat, eval, a, b, parts, n);
        }
        if snark_refused(v, h, sat, eval, b, q, proof, f, other) {
            if parts_refused(v, c, tau, r, sat, eval, b, parts, q, f) {
                lemma_refusal_stands(v, c, tau, r, sat, eval, a, b, parts, q, f, n);
            } else {
                lemma_parts_same(v, c, tau, r, sat, eval, a, b, parts, n);
            }
        }
    }
    if snark_refused(v, h, sat, eval, a, p, proof, e, after) && snark_refused(
        v,
        h,
        sat,
        eval,
        b,
        q,
        proof,
        f,
        other,
    ) {
        let (at, bt) = (
            parts_refused(v, c, tau, r, sat, eval, a, parts, p, e) && after == history(
                a.last().reached(p),
            ),
            parts_refused(v, c, tau, r, sat, eval, b, parts, q, f) && other == history(
                b.last().reached(q),
            ),
        );
        if at && bt {
            lemma_refusals_same(v, c, tau, r, sat, eval, a, b, parts, p, q, e, f);
        } else if at {
            lemma_refusal_stands(v, c, tau, r, sat, eval, b, a, parts, p, e, n);
        } else if bt {
            lemma_refusal_stands(v, c, tau, r, sat, eval, a, b, parts, q, f, n);
        } else {
            lemma_parts_same(v, c, tau, r, sat, eval, a, b, parts, n);
        }
    }
}

} // verus!
