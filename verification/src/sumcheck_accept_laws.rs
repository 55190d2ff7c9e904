//! What a verifier checks of a sum-check is true.
use crate::commitments::{commitment, Gens};
use crate::field::{canonical_ops, sub_add};
use crate::group::{encodes_uniquely, CompressedGroup};
use crate::nizk::pair_commitment;
use crate::opening_laws::lemma_canonical_challenge;
use crate::scalar::{lemma_constants, sadd, smul, Scalar};
use crate::sigma_laws::{
    law_commitments_combine, law_linear_holds, lemma_challenges_canonical, linear_checked,
};
use crate::sumcheck::{
    column_at, first_round, one_round, round_evals, round_weights, sumcheck_prove, sumcheck_rounds,
    table_sum, Comb, Rounds, Sumcheck,
};
use crate::sumcheck_laws::law_round_statement;
use crate::sums::{added, all_canonical, scaled_list};
use crate::transcript::{challenge, challenges, drawn, said, History};
use crate::unipoly::{horner_up, interpolated, uni_value};
use vstd::prelude::*;

verus! {

/// Where a verifier of a sum-check stands.
#[verifier::ext_equal]
pub struct Followed {
    /// Whether all rounds held.
    pub holds: bool,
    /// The commitment to the claim.
    pub claim: CompressedGroup,
    /// The challenges.
    pub r: Seq<Scalar>,
    /// The transcript.
    pub th: History,
}

/// What a verifier finds of the first `k` rounds of a sum-check, from the
/// commitment to the claim. The polynomials of the rounds have `width`
/// coefficients.
pub open spec fn sumcheck_checked(
    p: Sumcheck,
    claim: CompressedGroup,
    g1: Gens,
    gn: Gens,
    width: nat,
    th: History,
    k: nat,
) -> Followed
    decreases k,
{
    if k == 0 {
        Followed { holds: true, claim, r: Seq::empty(), th }
    } else {
        let f = sumcheck_checked(p, claim, g1, gn, width, th, (k - 1) as nat);
        let (poly, eval) = (p.comm_polys[k - 1], p.comm_evals[k - 1]);
        let h1 = said(f.th, "comm_poly"@, poly.encoding());
        let r = challenge(h1, "challenge_nextround"@);
        let h2 = drawn(h1, "challenge_nextround"@);
        let h3 = said(
            said(h2, "comm_claim_per_round"@, f.claim.encoding()),
            "comm_eval"@,
            eval.encoding(),
        );
        let (w, h4) = challenges(h3, "combine_two_claims_to_one"@, 2);
        let target = pair_commitment(w[0], w[1], f.claim, eval);
        let (holds, h5) = linear_checked(
            g1,
            gn,
            poly,
            target,
            round_weights(w, r, width),
            p.proofs[k - 1],
            h4,
        );
        Followed { holds: f.holds && holds, claim: eval, r: f.r.push(r), th: h5 }
    }
}

/// Whether a sum-check has the messages of `n` rounds.
pub open spec fn sumcheck_sized(p: Sumcheck, n: nat) -> bool {
    &&& p.comm_polys.len() == n
    &&& p.comm_evals.len() == n
    &&& p.proofs.len() == n
}

/// Only the first messages matter for the first rounds.
proof fn lemma_checked_same(
    p: Sumcheck,
    q: Sumcheck,
    claim: CompressedGroup,
    g1: Gens,
    gn: Gens,
    width: nat,
    th: History,
    k: nat,
)
    requires
        forall|j: int| 0 <= j < k ==> #[trigger] p.comm_polys[j] == q.comm_polys[j],
        forall|j: int| 0 <= j < k ==> #[trigger] p.comm_evals[j] == q.comm_evals[j],
        forall|j: int| 0 <= j < k ==> #[trigger] p.proofs[j] == q.proofs[j],
    ensures
        sumcheck_checked(p, claim, g1, gn, width, th, k) == sumcheck_checked(
            q,
            claim,
            g1,
            gn,
            width,
            th,
            k,
        ),
    decreases k,
{
    if k > 0 {
        lemma_checked_same(p, q, claim, g1, gn, width, th, (k - 1) as nat);
        assert(p.comm_polys[k - 1] == q.comm_polys[k - 1]);
        assert(p.comm_evals[k - 1] == q.comm_evals[k - 1]);
        assert(p.proofs[k - 1] == q.proofs[k - 1]);
    }
}

/// Sums over tables are reduced.
proof fn lemma_table_canonical(tables: Seq<Seq<Scalar>>, comb: Comb, at: nat, k: nat)
    ensures
        table_sum(tables, comb, at, k).canonical(),
{
    lemma_constants();
    if k > 0 {
        canonical_ops(
            table_sum(tables, comb, at, (k - 1) as nat),
            comb.apply(column_at(tables, k - 1, at)),
        );
    }
}

/// The values that fix the polynomial of a round are reduced, and those at 0 and
/// 1 add up to the claim.
proof fn lemma_round_evals(tables: Seq<Seq<Scalar>>, comb: Comb, claim: Scalar)
    requires
        claim.canonical(),
    ensures
        round_evals(tables, comb, claim).len() == comb.points(),
        all_canonical(round_evals(tables, comb, claim)),
        claim == sadd(
            round_evals(tables, comb, claim)[0],
            round_evals(tables, comb, claim)[1],
        ),
{
    let n = tables[0].len() / 2;
    lemma_table_canonical(tables, comb, 0, n);
    lemma_table_canonical(tables, comb, 2, n);
    lemma_table_canonical(tables, comb, 3, n);
    let e0 = table_sum(tables, comb, 0, n);
    sub_add(claim, e0);
    canonical_ops(claim, e0);
}

/// One round holds: the verifier is left with the claim of the prover.
proof fn lemma_round_holds(
    s: Rounds,
    evals: Seq<Scalar>,
    bp: Scalar,
    be: Scalar,
    g1: Gens,
    gn: Gens,
)
    requires
        encodes_uniquely(),
        g1.g.len() >= 1,
        evals.len() <= gn.g.len(),
        evals.len() == 3 || evals.len() == 4,
        all_canonical(evals),
        s.claim == sadd(evals[0], evals[1]),
        s.comm_claim == commitment(seq![s.claim], s.blind, g1),
    ensures
        ({
            let out = one_round(s, evals, bp, be, g1, gn);
            let poly = out.comm_polys.last();
            let eval = out.comm_evals.last();
            let h1 = said(s.th, "comm_poly"@, poly.encoding());
            let r = challenge(h1, "challenge_nextround"@);
            let h3 = said(
                said(
                    drawn(h1, "challenge_nextround"@),
                    "comm_claim_per_round"@,
                    s.comm_claim.encoding(),
                ),
                "comm_eval"@,
                eval.encoding(),
            );
            let (w, h4) = challenges(h3, "combine_two_claims_to_one"@, 2);
            &&& out.comm_polys == s.comm_polys.push(poly)
            &&& out.comm_evals == s.comm_evals.push(eval)
            &&& out.proofs == s.proofs.push(out.proofs.last())
            &&& out.r == s.r.push(r)
            &&& out.comm_claim == eval
            &&& out.comm_claim == commitment(seq![out.claim], out.blind, g1)
            &&& out.claim.canonical()
            &&& out.blind == be
            &&& linear_checked(
                g1,
                gn,
                poly,
                pair_commitment(w[0], w[1], s.comm_claim, eval),
                round_weights(w, r, evals.len()),
                out.proofs.last(),
                h4,
            ) == (true, out.th)
        }),
{
    reveal(one_round);
    let c = interpolated(evals);
    let out = one_round(s, evals, bp, be, g1, gn);
    let poly = commitment(c, bp, gn);
    let h1 = said(s.th, "comm_poly"@, poly.encoding());
    let r = challenge(h1, "challenge_nextround"@);
    lemma_canonical_challenge(h1, "challenge_nextround"@);
    let h2 = drawn(h1, "challenge_nextround"@);
    let eval = uni_value(c, r);
    let comm_eval = commitment(seq![eval], be, g1);
    let h3 = said(
        said(h2, "comm_claim_per_round"@, s.comm_claim.encoding()),
        "comm_eval"@,
        comm_eval.encoding(),
    );
    let (w, h4) = challenges(h3, "combine_two_claims_to_one"@, 2);
    let target = sadd(smul(w[0], s.claim), smul(w[1], eval));
    let blind = sadd(smul(w[0], s.blind), smul(w[1], be));
    let a = round_weights(w, r, c.len());
    law_round_statement(evals, s.claim, w, r);
    law_linear_holds(g1, gn, c, bp, a, target, blind, h4, s.rh);
    law_commitments_combine(w[0], w[1], seq![s.claim], s.blind, seq![eval], be, g1);
    assert(added(scaled_list(w[0], seq![s.claim]), scaled_list(w[1], seq![eval])) =~= seq![target]);
    let n = c.len();
    let (v, p) = horner_up(c, r, (n - 1) as nat);
    canonical_ops(v, smul(p, c[n - 1]));
}

/// Rounds of a sum-check hold, one after the other.
proof fn lemma_rounds_hold(
    s: Rounds,
    tables: Seq<Seq<Scalar>>,
    comb: Comb,
    bp: Seq<Scalar>,
    be: Seq<Scalar>,
    g1: Gens,
    gn: Gens,
    k: nat,
)
    requires
        encodes_uniquely(),
        g1.g.len() >= 1,
        comb.points() <= gn.g.len(),
        s.claim.canonical(),
        s.comm_claim == commitment(seq![s.claim], s.blind, g1),
        s.r.len() == 0,
        s.comm_polys.len() == 0,
        s.comm_evals.len() == 0,
        s.proofs.len() == 0,
    ensures
        ({
            let out = sumcheck_rounds(s, tables, comb, bp, be, g1, gn, k).0;
            &&& out.comm_polys.len() == k
            &&& out.comm_evals.len() == k
            &&& out.proofs.len() == k
            &&& out.claim.canonical()
            &&& out.comm_claim == commitment(seq![out.claim], out.blind, g1)
            &&& k >= 1 ==> out.blind == be[k - 1]
            &&& k == 0 ==> out == s
            &&& sumcheck_checked(out.messages(), s.comm_claim, g1, gn, comb.points(), s.th, k) == (
            Followed { holds: true, claim: out.comm_claim, r: out.r, th: out.th })
        }),
    decreases k,
{
    let out = sumcheck_rounds(s, tables, comb, bp, be, g1, gn, k).0;
    if k == 0 {
        assert(s.r =~= Seq::<Scalar>::empty());
    } else {
        let p = (k - 1) as nat;
        lemma_rounds_hold(s, tables, comb, bp, be, g1, gn, p);
        let (s1, t1) = sumcheck_rounds(s, tables, comb, bp, be, g1, gn, p);
        let evals = round_evals(t1, comb, s1.claim);
        lemma_round_evals(t1, comb, s1.claim);
        lemma_round_holds(s1, evals, bp[k - 1], be[k - 1], g1, gn);
        lemma_checked_same(
            s1.messages(),
            out.messages(),
            s.comm_claim,
            g1,
            gn,
            comb.points(),
            s.th,
            p,
        );
    }
}

/// What a verifier checks of a sum-check is true, whatever the tables: it is
/// left with the commitment to the last claim, the challenges and the transcript
/// of the prover.
pub proof fn law_sumcheck_holds(
    claim: Scalar,
    blind: Scalar,
    n: nat,
    tables: Seq<Seq<Scalar>>,
    comb: Comb,
    g1: Gens,
    gn: Gens,
    th: History,
    rh: History,
)
    requires
        encodes_uniquely(),
        g1.g.len() >= 1,
        comb.points() <= gn.g.len(),
        claim.canonical(),
        blind.canonical(),
    ensures
        ({
            let out = sumcheck_prove(claim, blind, n, tables, comb, g1, gn, th, rh).0;
            &&& sumcheck_checked(
                out.messages(),
                commitment(seq![claim], blind, g1),
                g1,
                gn,
                comb.points(),
                th,
                n,
            ) == (Followed { holds: true, claim: out.comm_claim, r: out.r, th: out.th })
            &&& sumcheck_sized(out.messages(), n)
            &&& out.comm_claim == commitment(seq![out.claim], out.blind, g1)
            &&& out.blind.canonical()
        }),
{
    let (bp, rh1) = challenges(rh, "blinds_poly"@, n);
    let (be, rh2) = challenges(rh1, "blinds_evals"@, n);
    lemma_challenges_canonical(rh1, "blinds_evals"@, n);
    lemma_rounds_hold(
        first_round(claim, blind, g1, th, rh2),
        tables,
        comb,
        bp,
        be,
        g1,
        gn,
        n,
    );
    if n >= 1 {
        assert(be[n - 1].canonical());
    }
}

} // verus!
