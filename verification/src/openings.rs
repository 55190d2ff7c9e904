//! Lists of values of committed polynomials, proved one after the other.
use crate::commitments::Gens;
use crate::dense_mlpoly::{DensePolynomial, PolyCommitment, PolyCommitmentGens};
use crate::errors::ProofVerifyError;
use crate::group::CompressedGroup;
use crate::io_proofs::proofs;
use crate::nizk::DotLog;
use crate::poly_eval::{plain_prove, plain_verify, PolyEvalProof};
use crate::random::RandomTape;
use crate::scalar::{sone, szero, Scalar};
use crate::transcript::{history, History};
use crate::vectors::repeated;
use merlin::Transcript;
use vstd::arithmetic::power2::pow2;
use vstd::prelude::*;

verus! {

/// A value of a polynomial at a point.
pub struct Opening {
    /// The values of the polynomial on the hypercube.
    pub z: Seq<Scalar>,
    /// The point.
    pub point: Seq<Scalar>,
    /// The value.
    pub value: Scalar,
}

/// A value of a committed polynomial at a point.
pub struct Claim {
    /// The commitment.
    pub comm: Seq<CompressedGroup>,
    /// The point.
    pub point: Seq<Scalar>,
    /// The value.
    pub value: Scalar,
}

/// The vertex whose last `k` coordinates of `n` are one.
pub open spec fn corner(n: nat, k: nat) -> Seq<Scalar> {
    repeated(szero(), (n - k) as nat) + repeated(sone(), k)
}

/// The proofs of the first `k` openings, and the transcript and the tape
/// after them.
pub open spec fn open_all(
    gens: (Gens, Gens),
    openings: Seq<Opening>,
    th: History,
    rh: History,
    k: nat,
) -> (Seq<DotLog>, History, History)
    decreases k,
{
    if k == 0 {
        (Seq::empty(), th, rh)
    } else {
        let (ps, th1, rh1) = open_all(gens, openings, th, rh, (k - 1) as nat);
        let o = openings[k - 1];
        let out = plain_prove(gens, o.z, o.point, o.value, th1, rh1);
        (ps.push(out.proof), out.th, out.rh)
    }
}

/// Whether the proofs of the first `k` claims hold, and the transcript after
/// them, or after the first one that does not hold.
pub open spec fn check_all(
    gens: (Gens, Gens),
    claims: Seq<Claim>,
    ps: Seq<DotLog>,
    th: History,
    k: nat,
) -> (bool, History)
    decreases k,
{
    if k == 0 {
        (true, th)
    } else {
        let (held, th1) = check_all(gens, claims, ps, th, (k - 1) as nat);
        let c = claims[k - 1];
        if held {
            plain_verify(gens, c.point, c.value, c.comm, ps[k - 1], th1)
        } else {
            (false, th1)
        }
    }
}

/// A refused claim ends the check.
pub proof fn lemma_check_refused(
    gens: (Gens, Gens),
    claims: Seq<Claim>,
    ps: Seq<DotLog>,
    th: History,
    j: nat,
    k: nat,
)
    requires
        j <= k,
        !check_all(gens, claims, ps, th, j).0,
    ensures
        check_all(gens, claims, ps, th, k) == check_all(gens, claims, ps, th, j),
    decreases k,
{
    if j < k {
        lemma_check_refused(gens, claims, ps, th, j, (k - 1) as nat);
    }
}

/// The vertex whose last `k` coordinates are one.
pub fn corner_point(n: usize, k: usize) -> (r: Vec<Scalar>)
    requires
        k <= n,
    ensures
        r@ == corner(n as nat, k as nat),
{
    let mut r = crate::vectors::zeros(n - k);
    let mut i: usize = 0;
    while i < k
        invariant
            i <= k <= n,
            r@ == repeated(szero(), (n - k) as nat) + repeated(sone(), i as nat),
        decreases k - i,
    {
        r.push(Scalar::one());
        i += 1;
        assert(r@ =~= repeated(szero(), (n - k) as nat) + repeated(sone(), i as nat));
    }
    r
}

/// Proves one opening more.
pub(crate) fn open_next(
    poly: &DensePolynomial,
    point: &Vec<Scalar>,
    value: &Scalar,
    gens: &PolyCommitmentGens,
    out: &mut Vec<PolyEvalProof>,
    t: &mut Transcript,
    tape: &mut RandomTape,
    openings: Ghost<Seq<Opening>>,
    th: Ghost<History>,
    rh: Ghost<History>,
) -> (comm: CompressedGroup)
    requires
        poly@.len() == pow2(point@.len()),
        gens.fits(point@.len()),
        old(out)@.len() < openings@.len(),
        openings@[old(out)@.len() as int] == (Opening { z: poly@, point: point@, value: *value }),
        (proofs(old(out)@), history(*old(t)), old(tape)@) == open_all(
            gens@,
            openings@,
            th@,
            rh@,
            old(out)@.len(),
        ),
    ensures
        final(out)@.len() == old(out)@.len() + 1,
        (proofs(final(out)@), history(*final(t)), final(tape)@) == open_all(
            gens@,
            openings@,
            th@,
            rh@,
            final(out)@.len(),
        ),
        comm == crate::commitments::commitment(seq![*value], szero(), gens@.1),
{
    proof {
        reveal(plain_prove);
    }
    let ghost before = out@;
    let (proof, comm) = PolyEvalProof::prove(poly, None, point, value, None, gens, t, tape);
    out.push(proof);
    assert(proofs(out@) =~= proofs(before).push(proof@));
    comm
}

/// Checks one claim more.
pub(crate) fn check_next(
    proof: &PolyEvalProof,
    comm: &PolyCommitment,
    point: &Vec<Scalar>,
    value: &Scalar,
    gens: &PolyCommitmentGens,
    t: &mut Transcript,
    claims: Ghost<Seq<Claim>>,
    ps: Ghost<Seq<DotLog>>,
    th: Ghost<History>,
    k: Ghost<nat>,
) -> (r: Result<(), ProofVerifyError>)
    requires
        gens.fits(point@.len()),
        k@ < claims@.len(),
        k@ < ps@.len(),
        ps@[k@ as int] == proof@,
        claims@[k@ as int] == (Claim { comm: comm@, point: point@, value: *value }),
        check_all(gens@, claims@, ps@, th@, k@) == (true, history(*old(t))),
    ensures
        r is Ok ==> check_all(gens@, claims@, ps@, th@, k@ + 1) == (true, history(*final(t))),
        r matches Err(e) ==> e == ProofVerifyError::InternalError && check_all(
            gens@,
            claims@,
            ps@,
            th@,
            claims@.len(),
        ) == (false, history(*final(t))),
{
    let r = proof.verify_plain(gens, t, point, value, comm);
    proof {
        if r is Err {
            lemma_check_refused(gens@, claims@, ps@, th@, k@ + 1, claims@.len());
        }
    }
    r
}

} // verus!
