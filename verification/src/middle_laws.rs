//! What a verifier checks between two sum-checks is true.
use crate::commitments::{commitment, Gens};
use crate::field::{canonical_ops, distrib, four, mul_assoc, mul_comm};
use crate::group::{encodes_uniquely, lemma_msm, logs, msm, CompressedGroup};
use crate::nizk::pair_commitment;
use crate::opening_laws::{
    lemma_canonical_challenge, lemma_commit_one_log, lemma_commitment_log, lemma_dot_three,
    lemma_pair_log,
};
use crate::r1csproof::{middle_prove, Claims};
use crate::scalar::{lemma_constants, sadd, smul, ssub, szero, Scalar};
use crate::sigma::{knowledge_prove, product_prove};
use crate::sigma_laws::{
    equality_checked, knowledge_checked, law_commitments_combine, law_equality_holds,
    law_knowledge_holds, law_product_holds, lemma_msm_same, product_checked,
};
use crate::sumcheck_laws::{stands_add, stands_itself, stands_mul, stands_same, stands_sub};
use crate::sums::{added, scaled_list};
use crate::transcript::{challenge, drawn, said, History};
use vstd::prelude::*;

verus! {

/// What a verifier comes to between two sum-checks.
pub struct Joint {
    /// Whether all proofs held.
    pub holds: bool,
    /// The weight of the left factor.
    pub ra: Scalar,
    /// The weight of the right factor.
    pub rb: Scalar,
    /// The weight of the product.
    pub rc: Scalar,
    /// The commitment to the joint claim.
    pub claim: CompressedGroup,
    /// The transcript.
    pub th: History,
}

/// What a verifier finds between two sum-checks, where the first one ended in
/// the commitment `post` and its weights come to `tau`.
#[verifier::opaque]
pub open spec fn middle_checked(
    g1: Gens,
    tau: Scalar,
    post: CompressedGroup,
    p: Claims,
    th: History,
) -> Joint {
    let (known, h1) = knowledge_checked(g1, p.comm_cz, p.pok, th);
    let (multiplied, h2) = product_checked(g1, p.comm_az, p.comm_bz, p.comm_prod, p.prod, h1);
    let h3 = said(
        said(h2, "comm_Az_claim"@, p.comm_az.encoding()),
        "comm_Bz_claim"@,
        p.comm_bz.encoding(),
    );
    let h4 = said(
        said(h3, "comm_Cz_claim"@, p.comm_cz.encoding()),
        "comm_prod_Az_Bz_claims"@,
        p.comm_prod.encoding(),
    );
    let expected = pair_commitment(tau, ssub(szero(), tau), p.comm_prod, p.comm_cz);
    let (met, h5) = equality_checked(g1, expected, post, p.eq, h4);
    let ra = challenge(h5, "challenge_Az"@);
    let h6 = drawn(h5, "challenge_Az"@);
    let rb = challenge(h6, "challenge_Bz"@);
    let h7 = drawn(h6, "challenge_Bz"@);
    let rc = challenge(h7, "challenge_Cz"@);
    Joint {
        holds: known && multiplied && met,
        ra,
        rb,
        rc,
        claim: msm(seq![ra, rb, rc], seq![p.comm_az, p.comm_bz, p.comm_cz]),
        th: drawn(h7, "challenge_Cz"@),
    }
}

/// A weighted difference.
proof fn lemma_difference(t: Scalar, a: Scalar, b: Scalar)
    requires
        t.canonical(),
        a.canonical(),
        b.canonical(),
    ensures
        sadd(smul(t, a), smul(ssub(szero(), t), b)) == smul(t, ssub(a, b)),
        smul(t, ssub(a, b)) == smul(ssub(a, b), t),
{
    lemma_constants();
    let (ti, ai, bi) = (t@ as int, a@ as int, b@ as int);
    stands_itself(t);
    stands_itself(a);
    stands_itself(b);
    stands_itself(szero());
    stands_sub(szero(), 0, t, ti);
    stands_mul(t, ti, a, ai);
    stands_mul(ssub(szero(), t), 0 - ti, b, bi);
    stands_add(smul(t, a), ti * ai, smul(ssub(szero(), t), b), (0 - ti) * bi);
    stands_sub(a, ai, b, bi);
    stands_mul(t, ti, ssub(a, b), ai - bi);
    assert(ti * ai + (0 - ti) * bi == ti * (ai - bi)) by (nonlinear_arith);
    stands_same(
        sadd(smul(t, a), smul(ssub(szero(), t), b)),
        smul(t, ssub(a, b)),
        ti * (ai - bi),
    );
    mul_comm(t, ssub(a, b));
}

/// The combination of three commitments to single values is the commitment to
/// the combination.
proof fn lemma_joint(
    u: Seq<Scalar>,
    v: Seq<Scalar>,
    b: Seq<Scalar>,
    g: Gens,
)
    requires
        encodes_uniquely(),
        g.g.len() >= 1,
        u.len() == 3,
        v.len() == 3,
        b.len() == 3,
    ensures
        msm(
            u,
            seq![
                commitment(seq![v[0]], b[0], g),
                commitment(seq![v[1]], b[1], g),
                commitment(seq![v[2]], b[2], g),
            ],
        ) == commitment(
            seq![sadd(sadd(smul(u[0], v[0]), smul(u[1], v[1])), smul(u[2], v[2]))],
            sadd(sadd(smul(u[0], b[0]), smul(u[1], b[1])), smul(u[2], b[2])),
            g,
        ),
{
    let c = seq![
        commitment(seq![v[0]], b[0], g),
        commitment(seq![v[1]], b[1], g),
        commitment(seq![v[2]], b[2], g),
    ];
    let one = sadd(smul(u[0], v[0]), smul(u[1], v[1]));
    let blind = sadd(smul(u[0], b[0]), smul(u[1], b[1]));
    let (gl, hl) = (g.g[0].log(), g.h.log());
    lemma_commit_one_log(v[0], b[0], g);
    lemma_commit_one_log(v[1], b[1], g);
    lemma_commit_one_log(v[2], b[2], g);
    assert(logs(c) =~= seq![c[0].log(), c[1].log(), c[2].log()]);
    assert(u =~= seq![u[0], u[1], u[2]]);
    lemma_dot_three(u[0], u[1], u[2], c[0].log(), c[1].log(), c[2].log());
    lemma_commit_one_log(one, blind, g);
    // the first two
    law_commitments_combine(u[0], u[1], seq![v[0]], b[0], seq![v[1]], b[1], g);
    assert(added(scaled_list(u[0], seq![v[0]]), scaled_list(u[1], seq![v[1]])) =~= seq![one]);
    lemma_pair_log(u[0], u[1], c[0], c[1]);
    // the third
    let (total, total_blind) = (sadd(one, smul(u[2], v[2])), sadd(blind, smul(u[2], b[2])));
    let d = seq![total];
    let points = g.g.take(1).push(g.h);
    lemma_commit_one_log(total, total_blind, g);
    lemma_third(one, blind, u[2], v[2], b[2], gl, hl);
    lemma_commitment_log(d, total_blind, g);
    lemma_msm(u, c);
    lemma_msm(d.push(total_blind), points);
    lemma_msm_same(u, c, d.push(total_blind), points);
}

proof fn lemma_third(
    one: Scalar,
    blind: Scalar,
    u: Scalar,
    v: Scalar,
    b: Scalar,
    g: Scalar,
    h: Scalar,
)
    ensures
        sadd(
            sadd(smul(one, g), smul(blind, h)),
            smul(u, sadd(smul(v, g), smul(b, h))),
        ) == sadd(smul(sadd(one, smul(u, v)), g), smul(sadd(blind, smul(u, b)), h)),
{
    distrib(u, smul(v, g), smul(b, h));
    mul_assoc(u, v, g);
    mul_assoc(u, b, h);
    distrib(g, one, smul(u, v));
    distrib(h, blind, smul(u, b));
    four(
        smul(one, g),
        smul(blind, h),
        smul(smul(u, v), g),
        smul(smul(u, b), h),
    );
}

/// What a verifier checks between two sum-checks is true, where the first one
/// ended in the claims: it is left with the weights, the commitment to the joint
/// claim and the transcript of the prover.
pub proof fn law_middle_holds(
    g1: Gens,
    tau: Scalar,
    az: Scalar,
    bz: Scalar,
    cz: Scalar,
    blind_post: Scalar,
    th: History,
    rh: History,
)
    requires
        encodes_uniquely(),
        g1.g.len() >= 1,
        g1.h.valid(),
        tau.canonical(),
        az.canonical(),
        bz.canonical(),
        cz.canonical(),
        blind_post.canonical(),
    ensures
        ({
            let m = middle_prove(g1, tau, az, bz, cz, blind_post, th, rh);
            let post = commitment(seq![smul(ssub(smul(az, bz), cz), tau)], blind_post, g1);
            &&& middle_checked(g1, tau, post, m.claims, th) == (Joint {
                holds: true,
                ra: m.ra,
                rb: m.rb,
                rc: m.rc,
                claim: commitment(seq![m.claim], m.blind, g1),
                th: m.th,
            })
            &&& m.claim.canonical()
            &&& m.blind.canonical()
        }),
{
    reveal(middle_prove);
    reveal(middle_checked);
    let m = middle_prove(g1, tau, az, bz, cz, blind_post, th, rh);
    let az_blind = challenge(rh, "Az_blind"@);
    let rh1 = drawn(rh, "Az_blind"@);
    let bz_blind = challenge(rh1, "Bz_blind"@);
    let rh2 = drawn(rh1, "Bz_blind"@);
    let cz_blind = challenge(rh2, "Cz_blind"@);
    let rh3 = drawn(rh2, "Cz_blind"@);
    let prod_blind = challenge(rh3, "prod_Az_Bz_blind"@);
    let rh4 = drawn(rh3, "prod_Az_Bz_blind"@);
    lemma_canonical_challenge(rh, "Az_blind"@);
    lemma_canonical_challenge(rh2, "Cz_blind"@);
    lemma_canonical_challenge(rh3, "prod_Az_Bz_blind"@);
    let (pok, comm_cz, th1, rh5) = knowledge_prove(g1, cz, cz_blind, th, rh4);
    law_knowledge_holds(g1, cz, cz_blind, th, rh4);
    let prod = smul(az, bz);
    let po = product_prove(g1, az, az_blind, bz, bz_blind, prod, prod_blind, th1, rh5);
    law_product_holds(g1, az, az_blind, bz, bz_blind, prod_blind, th1, rh5);
    canonical_ops(az, bz);
    lemma_difference(tau, prod, cz);
    lemma_difference(tau, prod_blind, cz_blind);
    let post = smul(ssub(prod, cz), tau);
    let post_blind = smul(tau, ssub(prod_blind, cz_blind));
    law_commitments_combine(
        tau,
        ssub(szero(), tau),
        seq![prod],
        prod_blind,
        seq![cz],
        cz_blind,
        g1,
    );
    assert(added(scaled_list(tau, seq![prod]), scaled_list(ssub(szero(), tau), seq![cz])) =~= seq![
        post,
    ]);
    canonical_ops(tau, ssub(prod_blind, cz_blind));
    let h1 = said(
        said(po.th, "comm_Az_claim"@, po.x.encoding()),
        "comm_Bz_claim"@,
        po.y.encoding(),
    );
    let h2 = said(
        said(h1, "comm_Cz_claim"@, comm_cz.encoding()),
        "comm_prod_Az_Bz_claims"@,
        po.z.encoding(),
    );
    law_equality_holds(g1, post, post_blind, blind_post, h2, po.rh);
    lemma_joint(
        seq![m.ra, m.rb, m.rc],
        seq![az, bz, cz],
        seq![az_blind, bz_blind, cz_blind],
        g1,
    );
    canonical_ops(sadd(smul(m.ra, az), smul(m.rb, bz)), smul(m.rc, cz));
    canonical_ops(sadd(smul(m.ra, az_blind), smul(m.rb, bz_blind)), smul(m.rc, cz_blind));
}

} // verus!
