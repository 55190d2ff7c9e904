//! Lists of true values are accepted.
use crate::bullet_laws::all_invertible;
use crate::commitments::{derived_gens, Gens};
use crate::dense_mlpoly::{evaluation, right_vars};
use crate::group::{all_valid, encodes_uniquely};
use crate::io_proofs::{proof_at, prove_claims, verify_claims, IOClaim, IOProofsView};
use crate::math::bits;
use crate::nizk::DotLog;
use crate::opening_laws::{gens_valid, law_value_accepted, opening_challenges};
use crate::openings::{check_all, open_all, Claim, Opening};
use crate::poly_laws::law_value_at_vertex;
use crate::scalar::Scalar;
use crate::sparse_mlpoly::plain_commitment;
use crate::transcript::History;
use vstd::arithmetic::power2::pow2;
use vstd::prelude::*;

verus! {

/// Whether a polynomial in `n` coordinates can be opened with some generators
/// where it was committed to with others.
pub open spec fn openable(gens: (Gens, Gens), gc: Gens, n: nat) -> bool {
    let w = pow2(right_vars(n));
    &&& gens_valid(gens.0, gens.1)
    &&& right_vars(n) < 32
    &&& w <= gens.0.g.len()
    &&& w <= gc.g.len()
    &&& gc.g.take(w as int) == gens.0.g.take(w as int)
}

/// Generators of one label, derived for polynomials of different sizes, agree:
/// what was committed to with some of them can be opened with others, as far
/// as both suffice for it.
pub proof fn law_derived_gens_open(label: Seq<u8>, m: nat, mc: nat, n: nat)
    requires
        all_valid(derived_gens(label, m + 1).g),
        right_vars(n) < 32,
        pow2(right_vars(n)) <= m,
        pow2(right_vars(n)) <= mc,
    ensures
        ({
            let (all, allc) = (derived_gens(label, m + 1), derived_gens(label, mc + 1));
            openable(
                (
                    Gens { g: all.g.take(m as int), h: all.h },
                    Gens { g: all.g.skip(m as int), h: all.h },
                ),
                Gens { g: allc.g.take(mc as int), h: allc.h },
                n,
            )
        }),
{
    let (all, allc) = (derived_gens(label, m + 1), derived_gens(label, mc + 1));
    let w = pow2(right_vars(n)) as int;
    assert(all.g.take(m as int).take(w) =~= allc.g.take(mc as int).take(w));
}

/// Whether an opening is true, and can be made.
pub open spec fn opening_true(gens: (Gens, Gens), gc: Gens, o: Opening) -> bool {
    &&& o.z.len() == pow2(o.point.len())
    &&& openable(gens, gc, o.point.len())
    &&& o.value == evaluation(o.z, o.point)
}

/// Whether a claim is the public side of an opening.
pub open spec fn claim_of(o: Opening, gc: Gens) -> Claim {
    Claim { comm: plain_commitment(o.z, gc), point: o.point, value: o.value }
}

/// The public sides of openings.
pub open spec fn claims_of(s: Seq<Opening>, gc: Gens) -> Seq<Claim> {
    s.map_values(|o: Opening| claim_of(o, gc))
}

/// Whether the challenges of one opening of a list have inverses.
pub open spec fn invertible_at(
    gens: (Gens, Gens),
    s: Seq<Opening>,
    th: History,
    rh: History,
    i: int,
) -> bool {
    let (_, th1, rh1) = open_all(gens, s, th, rh, i as nat);
    all_invertible(opening_challenges(gens, s[i].z, s[i].point, th1, rh1))
}

/// Whether the challenges of the first `k` openings have inverses.
pub open spec fn openings_invertible(
    gens: (Gens, Gens),
    s: Seq<Opening>,
    th: History,
    rh: History,
    k: nat,
) -> bool {
    forall|i: int| 0 <= i < k ==> #[trigger] invertible_at(gens, s, th, rh, i)
}

/// The proofs of openings are as many as the openings, and those of the first
/// ones do not depend on the others.
pub proof fn lemma_open_all(
    gens: (Gens, Gens),
    s: Seq<Opening>,
    th: History,
    rh: History,
    i: nat,
    k: nat,
)
    requires
        i <= k,
    ensures
        open_all(gens, s, th, rh, k).0.len() == k,
        open_all(gens, s, th, rh, k).0.take(i as int) == open_all(gens, s, th, rh, i).0,
    decreases k,
{
    if k > 0 {
        lemma_open_all(gens, s, th, rh, 0, (k - 1) as nat);
    }
    if i < k {
        lemma_open_all(gens, s, th, rh, i, (k - 1) as nat);
        let (a, b) = (
            open_all(gens, s, th, rh, k).0.take(i as int),
            open_all(gens, s, th, rh, (k - 1) as nat).0.take(i as int),
        );
        assert(a =~= b);
    } else {
        let a = open_all(gens, s, th, rh, k).0;
        assert(a.take(k as int) =~= a);
    }
}

/// Openings that are true are accepted one after the other, and leave prover
/// and verifier with the same transcript, wherever the challenges have
/// inverses.
pub proof fn law_openings_accepted(
    gens: (Gens, Gens),
    gc: Gens,
    s: Seq<Opening>,
    ps: Seq<DotLog>,
    th: History,
    rh: History,
    k: nat,
)
    requires
        encodes_uniquely(),
        k <= s.len(),
        ps.len() >= k,
        ps.take(k as int) == open_all(gens, s, th, rh, k).0,
        forall|i: int| 0 <= i < k ==> opening_true(gens, gc, #[trigger] s[i]),
        openings_invertible(gens, s, th, rh, k),
    ensures
        check_all(gens, claims_of(s, gc), ps, th, k) == (true, open_all(gens, s, th, rh, k).1),
    decreases k,
{
    if k > 0 {
        let p = (k - 1) as nat;
        lemma_open_all(gens, s, th, rh, p, k);
        let (qs, th1, rh1) = open_all(gens, s, th, rh, p);
        assert(ps.take(p as int) =~= ps.take(k as int).take(p as int));
        law_openings_accepted(gens, gc, s, ps, th, rh, p);
        let o = s[p as int];
        assert(opening_true(gens, gc, o));
        assert(invertible_at(gens, s, th, rh, p as int));
        law_value_accepted(gens, gc, o.z, o.point, th1, rh1);
        assert(ps[p as int] == ps.take(k as int)[p as int]);
    }
}

/// What is claimed of an execution, as openings of its polynomial.
pub open spec fn io_openings(claim: IOClaim, z: Seq<Scalar>, len: nat) -> Seq<Opening> {
    Seq::new(
        claim.count(),
        |k: int| Opening { z, point: bits(claim.at(k).0, len), value: claim.at(k).1 },
    )
}

/// Whether what is claimed of an execution is true.
pub open spec fn claim_true(claim: IOClaim, z: Seq<Scalar>) -> bool {
    forall|k: int|
        0 <= k < claim.count() ==> (#[trigger] claim.at(k)).0 < z.len() && claim.at(
            k,
        ).1.canonical() && z[claim.at(k).0 as int] == claim.at(k).1
}

/// To prove the claims about an execution is to open its polynomial.
proof fn lemma_io_open(
    gens: (Gens, Gens),
    z: Seq<Scalar>,
    len: nat,
    claim: IOClaim,
    th: History,
    rh: History,
    k: nat,
)
    requires
        k <= claim.count(),
    ensures
        prove_claims(gens, z, len, claim, th, rh, k) == open_all(
            gens,
            io_openings(claim, z, len),
            th,
            rh,
            k,
        ),
    decreases k,
{
    if k > 0 {
        lemma_io_open(gens, z, len, claim, th, rh, (k - 1) as nat);
    }
}

/// To check the claims about an execution is to check the openings.
proof fn lemma_io_check(
    gens: (Gens, Gens),
    gc: Gens,
    z: Seq<Scalar>,
    len: nat,
    claim: IOClaim,
    p: IOProofsView,
    ps: Seq<DotLog>,
    th: History,
    k: nat,
)
    requires
        k <= claim.count(),
        forall|i: int| 0 <= i < k ==> #[trigger] proof_at(p, i) == ps[i],
    ensures
        verify_claims(gens, plain_commitment(z, gc), len, claim, p, th, k) == check_all(
            gens,
            claims_of(io_openings(claim, z, len), gc),
            ps,
            th,
            k,
        ),
    decreases k,
{
    if k > 0 {
        lemma_io_check(gens, gc, z, len, claim, p, ps, th, (k - 1) as nat);
        assert(proof_at(p, k - 1) == ps[k - 1]);
    }
}

/// Proofs of true claims about inputs and outputs are accepted, wherever the
/// challenges have inverses.
pub proof fn law_claims_accepted(
    gens: (Gens, Gens),
    gc: Gens,
    z: Seq<Scalar>,
    len: nat,
    claim: IOClaim,
    p: IOProofsView,
    th: History,
    rh: History,
    after: History,
)
    requires
        encodes_uniquely(),
        z.len() == pow2(len),
        openable(gens, gc, len),
        claim_true(claim, z),
        crate::io_proofs::claims_proved(gens, z, len, claim, th, rh, p, after),
        openings_invertible(gens, io_openings(claim, z, len), th, rh, claim.count()),
    ensures
        verify_claims(gens, plain_commitment(z, gc), len, claim, p, th, claim.count()) == (
            true,
            after,
        ),
{
    let k = claim.count();
    let s = io_openings(claim, z, len);
    let (ps, th1, rh1) = prove_claims(gens, z, len, claim, th, rh, k);
    lemma_io_open(gens, z, len, claim, th, rh, k);
    lemma_io_check(gens, gc, z, len, claim, p, ps, th, k);
    assert forall|i: int| 0 <= i < k implies opening_true(gens, gc, #[trigger] s[i]) by {
        let (x, v) = claim.at(i);
        law_value_at_vertex(z, x, len);
        assert(bits(x, len).len() == len);
    }
    assert(ps.take(k as int) =~= ps);
    law_openings_accepted(gens, gc, s, ps, th, rh, k);
}

} // verus!
