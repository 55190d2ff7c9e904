//! What a transcript takes in from each proof, message by message.
use crate::bullet::{fold_once, replayed, Folding};
use crate::commitments::{commitment, Gens};
use crate::dense_mlpoly::said_commitment;
use crate::group::CompressedGroup;
use crate::nizk::{dot_opening, dot_prove};
use crate::parts::said_claims;
use crate::r1csinstance::le_bytes;
use crate::r1csproof::{block_taus, middle_prove, BlockInput};
use crate::scalar::{le_value, lemma_of_view, order, sadd, smul, ssub, Scalar};
use crate::sigma::{equality_prove, knowledge_prove, linear_prove, product_prove};
use crate::sparse_mlpoly::{said_instance, InstanceCommitment};
use crate::sumcheck::{one_round, round_weights, Rounds};
use crate::transcript::{
    challenge, challenges, drawn, lemma_challenges_len, merlin_challenge, named, said, said_all,
    said_points, said_vector, History,
};
use crate::unipoly::{interpolated, uni_value};
use vstd::prelude::*;
use vstd::string::StringSliceAdditionalSpecFns;

verus! {

/// A message under a label.
pub open spec fn message(label: &str, bytes: Seq<u8>) -> (bool, Seq<char>, Seq<u8>) {
    (true, label@, bytes)
}

/// A challenge under a label. Its bytes are left open.
pub open spec fn request(label: &str) -> (bool, Seq<char>, Seq<u8>) {
    (false, label@, Seq::empty())
}

/// Whether an entry is the given one: of a challenge, only the label counts.
pub open spec fn agrees(e: (bool, Seq<char>, Seq<u8>), m: (bool, Seq<char>, Seq<u8>)) -> bool {
    e.0 == m.0 && e.1 == m.1 && (m.0 ==> e.2 == m.2)
}

/// Whether a transcript took in the given entries, and nothing else.
pub open spec fn spoken(before: History, after: History, m: History) -> bool {
    &&& after.len() == before.len() + m.len()
    &&& forall|i: int| 0 <= i < before.len() ==> #[trigger] after[i] == before[i]
    &&& forall|i: int| 0 <= i < m.len() ==> agrees(after[before.len() + i], #[trigger] m[i])
}

/// The messages that a list of scalars makes.
pub open spec fn vector_messages(label: Seq<char>, s: Seq<Scalar>) -> History {
    seq![(true, label, "begin_append_vector".spec_bytes())] + Seq::new(
        s.len(),
        |i: int| (true, label, s[i].encoding()),
    ) + seq![(true, label, "end_append_vector".spec_bytes())]
}

/// The messages that a commitment makes.
pub open spec fn commitment_messages(label: Seq<char>, c: Seq<CompressedGroup>) -> History {
    seq![(true, label, "poly_commitment_begin".spec_bytes())] + Seq::new(
        c.len(),
        |i: int| (true, "poly_commitment_share"@, c[i].encoding()),
    ) + seq![(true, label, "poly_commitment_end".spec_bytes())]
}

/// What is taken in twice in a row is taken in together.
pub proof fn lemma_then(a: History, b: History, c: History, m: History, n: History)
    requires
        spoken(a, b, m),
        spoken(b, c, n),
    ensures
        spoken(a, c, m + n),
{
    let both = m + n;
    assert forall|i: int| 0 <= i < a.len() implies #[trigger] c[i] == a[i] by {
        assert(c[i] == b[i]);
        assert(b[i] == a[i]);
    }
    assert forall|i: int| 0 <= i < both.len() implies agrees(
        c[a.len() + i],
        #[trigger] both[i],
    ) by {
        if i < m.len() {
            assert(c[a.len() + i] == b[a.len() + i]);
            assert(agrees(b[a.len() + i], m[i]));
        } else {
            let j = i - m.len();
            assert(both[i] == n[j]);
            assert(agrees(c[b.len() + j], n[j]));
        }
    }
}

proof fn lemma_all(h: History, label: Seq<char>, s: Seq<Scalar>)
    ensures
        said_all(h, label, s) == h + Seq::new(s.len(), |i: int| (true, label, s[i].encoding())),
    decreases s.len(),
{
    let m = Seq::new(s.len(), |i: int| (true, label, s[i].encoding()));
    if s.len() == 0 {
        assert(h + m =~= h);
    } else {
        let s0 = s.drop_last();
        lemma_all(h, label, s0);
        let m0 = Seq::new(s0.len(), |i: int| (true, label, s0[i].encoding()));
        assert(m =~= m0.push((true, label, s.last().encoding())));
        assert(h + m =~= (h + m0).push((true, label, s.last().encoding())));
    }
}

proof fn lemma_points(h: History, label: Seq<char>, s: Seq<CompressedGroup>)
    ensures
        said_points(h, label, s) == h + Seq::new(s.len(), |i: int| (true, label, s[i].encoding())),
    decreases s.len(),
{
    let m = Seq::new(s.len(), |i: int| (true, label, s[i].encoding()));
    if s.len() == 0 {
        assert(h + m =~= h);
    } else {
        let s0 = s.drop_last();
        lemma_points(h, label, s0);
        let m0 = Seq::new(s0.len(), |i: int| (true, label, s0[i].encoding()));
        assert(m =~= m0.push((true, label, s.last().encoding())));
        assert(h + m =~= (h + m0).push((true, label, s.last().encoding())));
    }
}

/// A list of scalars is said scalar by scalar, between two marks.
pub proof fn law_vector_messages(h: History, label: Seq<char>, s: Seq<Scalar>)
    ensures
        said_vector(h, label, s) == h + vector_messages(label, s),
        spoken(h, said_vector(h, label, s), vector_messages(label, s)),
{
    lemma_all(said(h, label, "begin_append_vector".spec_bytes()), label, s);
    assert(said_vector(h, label, s) =~= h + vector_messages(label, s));
}

/// A commitment is said point by point, between two marks.
pub proof fn law_commitment_messages(h: History, label: Seq<char>, c: Seq<CompressedGroup>)
    ensures
        said_commitment(h, label, c) == h + commitment_messages(label, c),
        spoken(h, said_commitment(h, label, c), commitment_messages(label, c)),
{
    lemma_points(
        said(h, label, "poly_commitment_begin".spec_bytes()),
        "poly_commitment_share"@,
        c,
    );
    assert(said_commitment(h, label, c) =~= h + commitment_messages(label, c));
}

/// As many challenges are drawn as asked for, all under the label.
pub proof fn law_challenge_messages(h: History, label: Seq<char>, n: nat)
    ensures
        spoken(
            h,
            challenges(h, label, n).1,
            Seq::new(n, |i: int| (false, label, Seq::<u8>::empty())),
        ),
    decreases n,
{
    if n > 0 {
        let p = (n - 1) as nat;
        law_challenge_messages(h, label, p);
        let before = challenges(h, label, p).1;
        let m = Seq::new(p, |i: int| (false, label, Seq::<u8>::empty()));
        let one = seq![(false, label, Seq::<u8>::empty())];
        assert(spoken(before, drawn(before, label), one));
        lemma_then(h, before, drawn(before, label), m, one);
        assert(m + one =~= Seq::new(n, |i: int| (false, label, Seq::<u8>::empty())));
    }
}

/// Each of several challenges is drawn behind those before it, and is the
/// remainder of 64 bytes modulo the order.
pub proof fn law_challenge_values(h: History, label: Seq<char>, n: nat, i: int)
    requires
        0 <= i < n,
    ensures
        challenges(h, label, n).0.len() == n,
        ({
            let before = challenges(h, label, i as nat).1;
            let after = challenges(h, label, (i + 1) as nat).1;
            let bytes = merlin_challenge(before, label, 64);
            &&& challenges(h, label, n).0[i]@ == le_value(bytes) % order()
            &&& after == before.push((false, label, bytes))
            &&& challenges(h, label, 0).1 == h
        }),
    decreases n,
{
    lemma_challenges_len(h, label, n);
    let p = (n - 1) as nat;
    lemma_challenges_len(h, label, p);
    if i < p {
        law_challenge_values(h, label, p, i);
        assert(challenges(h, label, n).0[i] == challenges(h, label, p).0[i]);
    } else {
        let before = challenges(h, label, p).1;
        let bytes = merlin_challenge(before, label, 64);
        vstd::arithmetic::div_mod::lemma_mod_bound(le_value(bytes) as int, order() as int);
        lemma_of_view(le_value(bytes) % order());
        assert(challenges(h, label, n).0[i] == challenge(before, label));
    }
}

/// A commitment to an instance is said after its sizes.
pub proof fn law_instance_messages(h: History, c: InstanceCommitment)
    ensures
        spoken(
            h,
            said_instance(h, c),
            seq![
                message("num_cons", le_bytes(c.num_cons, 8)),
                message("num_vars", le_bytes(c.num_vars, 8)),
                message("batch_size", le_bytes(c.batch_size, 8)),
                message("num_ops", le_bytes(c.num_ops, 8)),
                message("num_mem_cells", le_bytes(c.num_mem_cells, 8)),
            ] + commitment_messages("comm_comb_ops"@, c.ops) + commitment_messages(
                "comm_comb_mem"@,
                c.mem,
            ),
        ),
{
    let m = seq![
        message("num_cons", le_bytes(c.num_cons, 8)),
        message("num_vars", le_bytes(c.num_vars, 8)),
        message("batch_size", le_bytes(c.batch_size, 8)),
        message("num_ops", le_bytes(c.num_ops, 8)),
        message("num_mem_cells", le_bytes(c.num_mem_cells, 8)),
    ];
    let h1 = h + m;
    law_commitment_messages(h1, "comm_comb_ops"@, c.ops);
    let h2 = said_commitment(h1, "comm_comb_ops"@, c.ops);
    law_commitment_messages(h2, "comm_comb_mem"@, c.mem);
    let h3 = said_commitment(h2, "comm_comb_mem"@, c.mem);
    assert(said_instance(h, c) == h3) by {
        let five = h.push(m[0]).push(m[1]).push(m[2]).push(m[3]).push(m[4]);
        assert(five =~= h1);
    }
    assert(spoken(h, h1, m));
    lemma_then(h, h1, h2, m, commitment_messages("comm_comb_ops"@, c.ops));
    lemma_then(
        h,
        h2,
        h3,
        m + commitment_messages("comm_comb_ops"@, c.ops),
        commitment_messages("comm_comb_mem"@, c.mem),
    );
}

/// The values of three matrices are said in order.
pub proof fn law_claim_messages(h: History, evals: (Scalar, Scalar, Scalar))
    ensures
        spoken(
            h,
            said_claims(h, evals),
            seq![
                message("Ar_claim", evals.0.encoding()),
                message("Br_claim", evals.1.encoding()),
                message("Cr_claim", evals.2.encoding()),
            ],
        ),
{
}

/// A proof of knowledge draws its challenge behind the commitment and the mask.
pub proof fn law_knowledge_messages(g: Gens, x: Scalar, r: Scalar, th: History, rh: History)
    ensures
        ({
            let (p, c_x, th1, rh1) = knowledge_prove(g, x, r, th, rh);
            spoken(
                th,
                th1,
                seq![
                    message("protocol-name", "knowledge proof".spec_bytes()),
                    message("C", c_x.encoding()),
                    message("alpha", p.alpha.encoding()),
                    request("c"),
                ],
            )
        }),
{
}

/// A proof of equality draws its challenge behind both commitments and the mask.
pub proof fn law_equality_messages(
    g: Gens,
    v1: Scalar,
    s1: Scalar,
    v2: Scalar,
    s2: Scalar,
    th: History,
    rh: History,
)
    ensures
        ({
            let (p, th1, rh1) = equality_prove(g, v1, s1, v2, s2, th, rh);
            spoken(
                th,
                th1,
                seq![
                    message("protocol-name", "equality proof".spec_bytes()),
                    message("C1", commitment(seq![v1], s1, g).encoding()),
                    message("C2", commitment(seq![v2], s2, g).encoding()),
                    message("alpha", p.alpha.encoding()),
                    request("c"),
                ],
            )
        }),
{
}

/// A proof of a product draws its challenge behind the three commitments and the
/// three masks.
pub proof fn law_product_messages(
    g: Gens,
    x: Scalar,
    rx: Scalar,
    y: Scalar,
    ry: Scalar,
    z: Scalar,
    rz: Scalar,
    th: History,
    rh: History,
)
    ensures
        ({
            let o = product_prove(g, x, rx, y, ry, z, rz, th, rh);
            spoken(
                th,
                o.th,
                seq![
                    message("protocol-name", "product proof".spec_bytes()),
                    message("X", o.x.encoding()),
                    message("Y", o.y.encoding()),
                    message("Z", o.z.encoding()),
                    message("alpha", o.proof.alpha.encoding()),
                    message("beta", o.proof.beta.encoding()),
                    message("delta", o.proof.delta.encoding()),
                    request("c"),
                ],
            )
        }),
{
}

/// A proof of a product with a public vector draws its challenge behind both
/// commitments, the vector and both masks.
pub proof fn law_linear_messages(
    g1: Gens,
    gn: Gens,
    x: Seq<Scalar>,
    bx: Scalar,
    a: Seq<Scalar>,
    y: Scalar,
    by: Scalar,
    th: History,
    rh: History,
)
    ensures
        ({
            let (p, th1, rh1) = linear_prove(g1, gn, x, bx, a, y, by, th, rh);
            spoken(
                th,
                th1,
                seq![
                    message("protocol-name", "dot product proof".spec_bytes()),
                    message("Cx", commitment(x, bx, gn).encoding()),
                    message("Cy", commitment(seq![y], by, g1).encoding()),
                ] + vector_messages("a"@, a) + seq![
                    message("delta", p.delta.encoding()),
                    message("beta", p.beta.encoding()),
                    request("c"),
                ],
            )
        }),
{
    reveal(linear_prove);
    let (p, th1, rh1) = linear_prove(g1, gn, x, bx, a, y, by, th, rh);
    let cx = commitment(x, bx, gn);
    let cy = commitment(seq![y], by, g1);
    let h1 = said(said(named(th, "dot product proof"), "Cx"@, cx.encoding()), "Cy"@, cy.encoding());
    let h2 = said_vector(h1, "a"@, a);
    let m1 = seq![
        message("protocol-name", "dot product proof".spec_bytes()),
        message("Cx", cx.encoding()),
        message("Cy", cy.encoding()),
    ];
    let m2 = seq![
        message("delta", p.delta.encoding()),
        message("beta", p.beta.encoding()),
        request("c"),
    ];
    assert(spoken(th, h1, m1));
    law_vector_messages(h1, "a"@, a);
    lemma_then(th, h1, h2, m1, vector_messages("a"@, a));
    assert(spoken(h2, th1, m2));
    lemma_then(th, h2, th1, m1 + vector_messages("a"@, a), m2);
}

/// A proof of an inner product first draws a challenge behind both commitments
/// and the vector.
pub proof fn law_inner_product_opened(
    a: Seq<Scalar>,
    cx: CompressedGroup,
    cy: CompressedGroup,
    th: History,
)
    ensures
        spoken(
            th,
            dot_opening(a, cx, cy, th).1,
            seq![
                message("protocol-name", "dot product proof (log)".spec_bytes()),
                message("Cx", cx.encoding()),
                message("Cy", cy.encoding()),
            ] + vector_messages("a"@, a) + seq![request("r")],
        ),
{
    let h1 = said(
        said(named(th, "dot product proof (log)"), "Cx"@, cx.encoding()),
        "Cy"@,
        cy.encoding(),
    );
    let h2 = said_vector(h1, "a"@, a);
    let m1 = seq![
        message("protocol-name", "dot product proof (log)".spec_bytes()),
        message("Cx", cx.encoding()),
        message("Cy", cy.encoding()),
    ];
    assert(spoken(th, h1, m1));
    law_vector_messages(h1, "a"@, a);
    lemma_then(th, h1, h2, m1, vector_messages("a"@, a));
    assert(spoken(h2, dot_opening(a, cx, cy, th).1, seq![request("r")]));
    lemma_then(
        th,
        h2,
        dot_opening(a, cx, cy, th).1,
        m1 + vector_messages("a"@, a),
        seq![request("r")],
    );
}

/// A round of a folding draws its challenge behind both cross commitments.
pub proof fn law_fold_messages(
    s: Folding,
    q: CompressedGroup,
    h: CompressedGroup,
    blind_l: Scalar,
    blind_r: Scalar,
)
    ensures
        ({
            let t = fold_once(s, q, h, blind_l, blind_r);
            &&& t.l.drop_last() == s.l
            &&& t.r.drop_last() == s.r
            &&& spoken(
                s.th,
                t.th,
                seq![
                    message("L", t.l.last().encoding()),
                    message("R", t.r.last().encoding()),
                    request("u"),
                ],
            )
        }),
{
    let t = fold_once(s, q, h, blind_l, blind_r);
    assert(t.l.drop_last() =~= s.l);
    assert(t.r.drop_last() =~= s.r);
}

/// Who follows a folding draws each challenge behind both cross commitments of
/// its round.
pub proof fn law_replay_messages(
    th: History,
    l: Seq<CompressedGroup>,
    r: Seq<CompressedGroup>,
    k: nat,
)
    ensures
        spoken(
            replayed(th, l, r, k).1,
            replayed(th, l, r, k + 1).1,
            seq![
                message("L", l[k as int].encoding()),
                message("R", r[k as int].encoding()),
                request("u"),
            ],
        ),
        replayed(th, l, r, 0).1 == th,
{
}

/// A round of a sum-check draws its point behind the commitment to its
/// polynomial, and the weights of the claims behind both claims. A proof about
/// the committed polynomial follows.
pub proof fn law_round_messages(
    s: Rounds,
    evals: Seq<Scalar>,
    blind_poly: Scalar,
    blind_eval: Scalar,
    g1: Gens,
    gn: Gens,
)
    ensures
        ({
            let t = one_round(s, evals, blind_poly, blind_eval, g1, gn);
            let n = s.th.len() as int;
            &&& t.comm_claim == t.comm_evals.last()
            &&& t.th.len() > n + 8
            &&& spoken(
                s.th,
                t.th.take(n + 6),
                seq![
                    message("comm_poly", t.comm_polys.last().encoding()),
                    request("challenge_nextround"),
                ] + seq![
                    message("comm_claim_per_round", s.comm_claim.encoding()),
                    message("comm_eval", t.comm_evals.last().encoding()),
                ] + seq![
                    request("combine_two_claims_to_one"),
                    request("combine_two_claims_to_one"),
                ],
            )
            &&& t.th[n + 6] == message("protocol-name", "dot product proof".spec_bytes())
            &&& t.th[n + 7] == message("Cx", t.comm_polys.last().encoding())
        }),
{
    reveal(one_round);
    let t = one_round(s, evals, blind_poly, blind_eval, g1, gn);
    let n = s.th.len() as int;
    let (m1, m2, m3) = (
        seq![
            message("comm_poly", t.comm_polys.last().encoding()),
            request("challenge_nextround"),
        ],
        seq![
            message("comm_claim_per_round", s.comm_claim.encoding()),
            message("comm_eval", t.comm_evals.last().encoding()),
        ],
        seq![
            request("combine_two_claims_to_one"),
            request("combine_two_claims_to_one"),
        ],
    );
    let h0 = said(s.th, "comm_poly"@, t.comm_polys.last().encoding());
    let h1 = drawn(h0, "challenge_nextround"@);
    let h3 = said(
        said(h1, "comm_claim_per_round"@, s.comm_claim.encoding()),
        "comm_eval"@,
        t.comm_evals.last().encoding(),
    );
    let (w, h4) = challenges(h3, "combine_two_claims_to_one"@, 2);
    assert(spoken(s.th, h1, m1));
    assert(spoken(h1, h3, m2));
    law_challenge_messages(h3, "combine_two_claims_to_one"@, 2);
    assert(m3 =~= Seq::new(
        2,
        |i: int| (false, "combine_two_claims_to_one"@, Seq::<u8>::empty()),
    ));
    lemma_then(s.th, h1, h3, m1, m2);
    lemma_then(s.th, h3, h4, m1 + m2, m3);
    let r = challenge(h0, "challenge_nextround"@);
    let coeffs = interpolated(evals);
    let eval = uni_value(coeffs, r);
    let a = round_weights(w, r, coeffs.len());
    let y = sadd(smul(w[0], s.claim), smul(w[1], eval));
    let by = sadd(smul(w[0], s.blind), smul(w[1], blind_eval));
    law_linear_messages(g1, gn, coeffs, blind_poly, a, y, by, h4, s.rh);
    let (p, h5, rh) = linear_prove(g1, gn, coeffs, blind_poly, a, y, by, h4, s.rh);
    assert(h5 == t.th);
    let m = seq![
        message("protocol-name", "dot product proof".spec_bytes()),
        message("Cx", commitment(coeffs, blind_poly, gn).encoding()),
        message("Cy", commitment(seq![y], by, g1).encoding()),
    ] + vector_messages("a"@, a) + seq![
        message("delta", p.delta.encoding()),
        message("beta", p.beta.encoding()),
        request("c"),
    ];
    assert(spoken(h4, h5, m));
    assert(agrees(h5[h4.len() as int + 0], m[0]));
    assert(agrees(h5[h4.len() as int + 1], m[1]));
    assert(t.th.take(n + 6) =~= h4);
}

/// Between the two sum-checks a proof shows the commitments to the three values
/// and to the product of two of them, and then draws the weights of the values.
pub proof fn law_middle_messages(
    g1: Gens,
    tau: Scalar,
    az: Scalar,
    bz: Scalar,
    cz: Scalar,
    blind_post: Scalar,
    th: History,
    rh: History,
)
    ensures
        ({
            let o = middle_prove(g1, tau, az, bz, cz, blind_post, th, rh);
            let (c, t) = (o.claims, o.th.len() as int);
            let post = smul(ssub(smul(az, bz), cz), tau);
            &&& exists|b: Scalar|
                spoken(
                    th,
                    o.th,
                    seq![
                        message("protocol-name", "knowledge proof".spec_bytes()),
                        message("C", c.comm_cz.encoding()),
                        message("alpha", c.pok.alpha.encoding()),
                        request("c"),
                    ] + seq![
                        message("protocol-name", "product proof".spec_bytes()),
                        message("X", c.comm_az.encoding()),
                        message("Y", c.comm_bz.encoding()),
                        message("Z", c.comm_prod.encoding()),
                        message("alpha", c.prod.alpha.encoding()),
                        message("beta", c.prod.beta.encoding()),
                        message("delta", c.prod.delta.encoding()),
                        request("c"),
                    ] + seq![
                        message("comm_Az_claim", c.comm_az.encoding()),
                        message("comm_Bz_claim", c.comm_bz.encoding()),
                        message("comm_Cz_claim", c.comm_cz.encoding()),
                        message("comm_prod_Az_Bz_claims", c.comm_prod.encoding()),
                    ] + seq![
                        message("protocol-name", "equality proof".spec_bytes()),
                        message("C1", (#[trigger] commitment(seq![post], b, g1)).encoding()),
                        message("C2", commitment(seq![post], blind_post, g1).encoding()),
                        message("alpha", c.eq.alpha.encoding()),
                        request("c"),
                    ] + seq![
                        request("challenge_Az"),
                        request("challenge_Bz"),
                        request("challenge_Cz"),
                    ],
                )
            &&& o.ra == challenge(o.th.take(t - 3), "challenge_Az"@)
            &&& o.rb == challenge(o.th.take(t - 2), "challenge_Bz"@)
            &&& o.rc == challenge(o.th.take(t - 1), "challenge_Cz"@)
        }),
{
    reveal(middle_prove);
    let o = middle_prove(g1, tau, az, bz, cz, blind_post, th, rh);
    let (c, t) = (o.claims, o.th.len() as int);
    let post = smul(ssub(smul(az, bz), cz), tau);
    let rh1 = drawn(rh, "Az_blind"@);
    let rh2 = drawn(rh1, "Bz_blind"@);
    let rh3 = drawn(rh2, "Cz_blind"@);
    let rh4 = drawn(rh3, "prod_Az_Bz_blind"@);
    let (ba, bb, bc, bp) = (
        challenge(rh, "Az_blind"@),
        challenge(rh1, "Bz_blind"@),
        challenge(rh2, "Cz_blind"@),
        challenge(rh3, "prod_Az_Bz_blind"@),
    );
    let (pok, comm_cz, th1, rh5) = knowledge_prove(g1, cz, bc, th, rh4);
    law_knowledge_messages(g1, cz, bc, th, rh4);
    let po = product_prove(g1, az, ba, bz, bb, smul(az, bz), bp, th1, rh5);
    law_product_messages(g1, az, ba, bz, bb, smul(az, bz), bp, th1, rh5);
    let m1 = seq![
        message("protocol-name", "knowledge proof".spec_bytes()),
        message("C", c.comm_cz.encoding()),
        message("alpha", c.pok.alpha.encoding()),
        request("c"),
    ];
    let m2 = seq![
        message("protocol-name", "product proof".spec_bytes()),
        message("X", c.comm_az.encoding()),
        message("Y", c.comm_bz.encoding()),
        message("Z", c.comm_prod.encoding()),
        message("alpha", c.prod.alpha.encoding()),
        message("beta", c.prod.beta.encoding()),
        message("delta", c.prod.delta.encoding()),
        request("c"),
    ];
    let m3 = seq![
        message("comm_Az_claim", c.comm_az.encoding()),
        message("comm_Bz_claim", c.comm_bz.encoding()),
        message("comm_Cz_claim", c.comm_cz.encoding()),
        message("comm_prod_Az_Bz_claims", c.comm_prod.encoding()),
    ];
    let h2 = said(
        said(
            said(
                said(po.th, "comm_Az_claim"@, po.x.encoding()),
                "comm_Bz_claim"@,
                po.y.encoding(),
            ),
            "comm_Cz_claim"@,
            comm_cz.encoding(),
        ),
        "comm_prod_Az_Bz_claims"@,
        po.z.encoding(),
    );
    assert(spoken(po.th, h2, m3));
    let b = smul(tau, ssub(bp, bc));
    let (eq, h3, rh6) = equality_prove(g1, post, b, post, blind_post, h2, po.rh);
    law_equality_messages(g1, post, b, post, blind_post, h2, po.rh);
    let m4 = seq![
        message("protocol-name", "equality proof".spec_bytes()),
        message("C1", commitment(seq![post], b, g1).encoding()),
        message("C2", commitment(seq![post], blind_post, g1).encoding()),
        message("alpha", c.eq.alpha.encoding()),
        request("c"),
    ];
    let h4 = drawn(h3, "challenge_Az"@);
    let h5 = drawn(h4, "challenge_Bz"@);
    let m5 = seq![
        request("challenge_Az"),
        request("challenge_Bz"),
        request("challenge_Cz"),
    ];
    assert(o.th == drawn(h5, "challenge_Cz"@));
    assert(spoken(h3, o.th, m5));
    lemma_then(th, th1, po.th, m1, m2);
    lemma_then(th, po.th, h2, m1 + m2, m3);
    lemma_then(th, h2, h3, m1 + m2 + m3, m4);
    lemma_then(th, h3, o.th, m1 + m2 + m3 + m4, m5);
    assert(o.th.take(t - 1) =~= h5);
    assert(o.th.take(t - 2) =~= h4);
    assert(o.th.take(t - 3) =~= h3);
}

/// A proof about blocks first draws the weights of instances, copies and rows.
pub proof fn law_block_weights_drawn(i: BlockInput, th: History)
    ensures
        spoken(
            th,
            block_taus(i, th).3,
            Seq::new(i.np(), |k: int| request("challenge_tau_p")) + Seq::new(
                i.nq(),
                |k: int| request("challenge_tau_q"),
            ) + Seq::new(i.nx(), |k: int| request("challenge_tau_x")),
        ),
{
    let (p, q, x) = (
        Seq::new(i.np(), |k: int| request("challenge_tau_p")),
        Seq::new(i.nq(), |k: int| request("challenge_tau_q")),
        Seq::new(i.nx(), |k: int| request("challenge_tau_x")),
    );
    let h1 = challenges(th, "challenge_tau_p"@, i.np()).1;
    let h2 = challenges(h1, "challenge_tau_q"@, i.nq()).1;
    let h3 = challenges(h2, "challenge_tau_x"@, i.nx()).1;
    law_challenge_messages(th, "challenge_tau_p"@, i.np());
    law_challenge_messages(h1, "challenge_tau_q"@, i.nq());
    law_challenge_messages(h2, "challenge_tau_x"@, i.nx());
    assert(p =~= Seq::new(i.np(), |k: int| (false, "challenge_tau_p"@, Seq::<u8>::empty())));
    assert(q =~= Seq::new(i.nq(), |k: int| (false, "challenge_tau_q"@, Seq::<u8>::empty())));
    assert(x =~= Seq::new(i.nx(), |k: int| (false, "challenge_tau_x"@, Seq::<u8>::empty())));
    lemma_then(th, h1, h2, p, q);
    lemma_then(th, h2, h3, p + q, x);
}

/// A proof of an inner product ends with both masks and a challenge.
pub proof fn law_inner_product_closed(
    gn: Gens,
    g1: Gens,
    x: Seq<Scalar>,
    bx: Scalar,
    a: Seq<Scalar>,
    y: Scalar,
    by: Scalar,
    th: History,
    rh: History,
)
    ensures
        ({
            let o = dot_prove(gn, g1, x, bx, a, y, by, th, rh);
            let n = o.th.len() as int;
            &&& n >= 3
            &&& spoken(
                o.th.take(n - 3),
                o.th,
                seq![
                    message("delta", o.proof.delta.encoding()),
                    message("beta", o.proof.beta.encoding()),
                    request("c"),
                ],
            )
        }),
{
    reveal(dot_prove);
}

} // verus!
