//! The small proofs hold: what a verifier checks of them is true.
use crate::commitments::{commitment, Gens};
use crate::field::{add_comm, canonical_ops, distrib, four, mul_assoc, mul_comm, neutral};
use crate::group::{encodes_uniquely, lemma_log, lemma_msm, logs, msm, CompressedGroup};
use crate::nizk::pair_commitment;
use crate::opening_laws::{
    lemma_canonical_challenge, lemma_commit_one_log, lemma_commitment_log, lemma_pair_log,
    lemma_scaled_log,
};
use crate::scalar::{lemma_constants, sadd, smul, sone, ssub, Scalar};
use crate::sigma::{
    affine, equality_prove, knowledge_prove, linear_prove, product_prove, DotLinear, EqualityProof,
    KnowledgeProof, ProductProof,
};
use crate::sumcheck_laws::{stands_add, stands_itself, stands_mul, stands_same, stands_sub};
use crate::sums::{added, all_canonical, dot_added, dot_comm, dot_scaled, scaled_list};
use crate::transcript::{challenge, challenges, drawn, named, said, said_vector, History};
use crate::vectors::{dot, lemma_sum_canonical, pointwise};
use vstd::prelude::*;

verus! {

/// Combinations of points with one logarithm are the same.
pub proof fn lemma_msm_same(
    s: Seq<Scalar>,
    p: Seq<CompressedGroup>,
    t: Seq<Scalar>,
    q: Seq<CompressedGroup>,
)
    requires
        dot(s, logs(p)) == dot(t, logs(q)),
    ensures
        msm(s, p) == msm(t, q),
{
    reveal(msm);
}

/// A combination of two sums of two, term by term.
pub proof fn lemma_duo(
    u: Scalar,
    v: Scalar,
    a: Scalar,
    b: Scalar,
    c: Scalar,
    d: Scalar,
)
    ensures
        sadd(smul(u, sadd(a, b)), smul(v, sadd(c, d))) == sadd(
            sadd(smul(u, a), smul(v, c)),
            sadd(smul(u, b), smul(v, d)),
        ),
{
    distrib(u, a, b);
    distrib(v, c, d);
    four(smul(u, a), smul(u, b), smul(v, c), smul(v, d));
}

/// The combination of two commitments is the commitment to the combination.
pub proof fn law_commitments_combine(
    u: Scalar,
    v: Scalar,
    x: Seq<Scalar>,
    bx: Scalar,
    y: Seq<Scalar>,
    by: Scalar,
    g: Gens,
)
    requires
        encodes_uniquely(),
        x.len() == y.len(),
        x.len() <= g.g.len(),
    ensures
        commitment(
            added(scaled_list(u, x), scaled_list(v, y)),
            sadd(smul(u, bx), smul(v, by)),
            g,
        ) == pair_commitment(u, v, commitment(x, bx, g), commitment(y, by, g)),
{
    let z = added(scaled_list(u, x), scaled_list(v, y));
    let bz = sadd(smul(u, bx), smul(v, by));
    let lg = logs(g.g.take(x.len() as int));
    let h = g.h.log();
    let (cx, cy) = (commitment(x, bx, g), commitment(y, by, g));
    lemma_commitment_log(x, bx, g);
    lemma_commitment_log(y, by, g);
    lemma_commitment_log(z, bz, g);
    lemma_pair_log(u, v, cx, cy);
    dot_added(scaled_list(u, x), scaled_list(v, y), lg);
    dot_scaled(u, x, lg);
    dot_scaled(v, y, lg);
    lemma_duo(u, v, dot(x, lg), smul(bx, h), dot(y, lg), smul(by, h));
    distrib(h, smul(u, bx), smul(v, by));
    mul_assoc(u, bx, h);
    mul_assoc(v, by, h);
    let (s, p) = (z.push(bz), g.g.take(z.len() as int).push(g.h));
    lemma_msm(s, p);
    lemma_msm(seq![u, v], seq![cx, cy]);
    lemma_msm_same(s, p, seq![u, v], seq![cx, cy]);
}

/// The commitment to a masked vector is the combination of those to the vector
/// and to the mask.
pub proof fn lemma_masked(
    c: Scalar,
    x: Seq<Scalar>,
    bx: Scalar,
    d: Seq<Scalar>,
    bd: Scalar,
    g: Gens,
)
    requires
        encodes_uniquely(),
        x.len() == d.len(),
        x.len() <= g.g.len(),
        all_canonical(d),
        bd.canonical(),
    ensures
        commitment(affine(c, x, d), sadd(smul(c, bx), bd), g) == pair_commitment(
            c,
            sone(),
            commitment(x, bx, g),
            commitment(d, bd, g),
        ),
{
    law_commitments_combine(c, sone(), x, bx, d, bd, g);
    neutral(bd);
    let z = added(scaled_list(c, x), scaled_list(sone(), d));
    assert forall|i: int| 0 <= i < x.len() implies z[i] == affine(c, x, d)[i] by {
        assert(d[i].canonical());
        neutral(d[i]);
    }
    assert(z =~= affine(c, x, d));
}

/// Challenges are reduced.
pub proof fn lemma_challenges_canonical(h: History, label: Seq<char>, n: nat)
    ensures
        challenges(h, label, n).0.len() == n,
        all_canonical(challenges(h, label, n).0),
    decreases n,
{
    if n > 0 {
        let p = (n - 1) as nat;
        lemma_challenges_canonical(h, label, p);
        lemma_canonical_challenge(challenges(h, label, p).1, label);
    }
}

/// What a verifier finds of a proof of knowledge of what `c_x` commits to, and
/// the transcript after it.
pub open spec fn knowledge_checked(
    g: Gens,
    c_x: CompressedGroup,
    p: KnowledgeProof,
    th: History,
) -> (bool, History) {
    let h = said(
        said(named(th, "knowledge proof"), "C"@, c_x.encoding()),
        "alpha"@,
        p.alpha.encoding(),
    );
    let c = challenge(h, "c"@);
    (
        commitment(seq![p.z1], p.z2, g) == pair_commitment(c, sone(), c_x, p.alpha),
        drawn(h, "c"@),
    )
}

/// A proof of knowledge holds.
pub proof fn law_knowledge_holds(g: Gens, x: Scalar, r: Scalar, th: History, rh: History)
    requires
        encodes_uniquely(),
        g.g.len() >= 1,
    ensures
        ({
            let (p, c_x, th1, rh1) = knowledge_prove(g, x, r, th, rh);
            knowledge_checked(g, c_x, p, th) == (true, th1)
        }),
{
    let (p, c_x, th1, rh1) = knowledge_prove(g, x, r, th, rh);
    let t1 = challenge(rh, "t1"@);
    let t2 = challenge(drawn(rh, "t1"@), "t2"@);
    lemma_canonical_challenge(rh, "t1"@);
    lemma_canonical_challenge(drawn(rh, "t1"@), "t2"@);
    let h = said(
        said(named(th, "knowledge proof"), "C"@, c_x.encoding()),
        "alpha"@,
        p.alpha.encoding(),
    );
    let c = challenge(h, "c"@);
    lemma_masked(c, seq![x], r, seq![t1], t2, g);
    mul_comm(x, c);
    mul_comm(r, c);
    assert(affine(c, seq![x], seq![t1]) =~= seq![p.z1]);
}

/// What a verifier finds of a proof that two commitments are to one value, and
/// the transcript after it.
pub open spec fn equality_checked(
    g: Gens,
    c1: CompressedGroup,
    c2: CompressedGroup,
    p: EqualityProof,
    th: History,
) -> (bool, History) {
    let h = said(
        said(said(named(th, "equality proof"), "C1"@, c1.encoding()), "C2"@, c2.encoding()),
        "alpha"@,
        p.alpha.encoding(),
    );
    let c = challenge(h, "c"@);
    (
        pair_commitment(p.z, c, g.h, c2) == pair_commitment(c, sone(), c1, p.alpha),
        drawn(h, "c"@),
    )
}

/// A proof that two commitments are to one value holds, where they are.
pub proof fn law_equality_holds(
    g: Gens,
    v: Scalar,
    s1: Scalar,
    s2: Scalar,
    th: History,
    rh: History,
)
    requires
        encodes_uniquely(),
        g.g.len() >= 1,
        g.h.valid(),
        s1.canonical(),
        s2.canonical(),
    ensures
        ({
            let (p, th1, rh1) = equality_prove(g, v, s1, v, s2, th, rh);
            equality_checked(g, commitment(seq![v], s1, g), commitment(seq![v], s2, g), p, th) == (
                true,
                th1,
            )
        }),
{
    let (p, th1, rh1) = equality_prove(g, v, s1, v, s2, th, rh);
    let r = challenge(rh, "r"@);
    lemma_canonical_challenge(rh, "r"@);
    let (c1, c2) = (commitment(seq![v], s1, g), commitment(seq![v], s2, g));
    let h = said(
        said(said(named(th, "equality proof"), "C1"@, c1.encoding()), "C2"@, c2.encoding()),
        "alpha"@,
        p.alpha.encoding(),
    );
    let c = challenge(h, "c"@);
    lemma_canonical_challenge(h, "c"@);
    lemma_commit_one_log(v, s1, g);
    lemma_commit_one_log(v, s2, g);
    lemma_scaled_log(g.h, r);
    let (vg, hl) = (smul(v, g.g[0].log()), g.h.log());
    // z h + c (v g + s2 h) == c (v g + s1 h) + r h, where z is c (s1 - s2) + r
    lemma_log(g.h);
    canonical_ops(v, g.g[0].log());
    canonical_ops(s1, s2);
    canonical_ops(r, hl);
    lemma_equality_sides(c, s1, s2, r, vg, hl);
    let (s, t) = (seq![p.z, c], seq![c, sone()]);
    let (a, b) = (seq![g.h, c2], seq![c1, p.alpha]);
    lemma_pair_log(p.z, c, g.h, c2);
    lemma_pair_log(c, sone(), c1, p.alpha);
    lemma_msm(s, a);
    lemma_msm(t, b);
    lemma_msm_same(s, a, t, b);
}

proof fn lemma_equality_sides(
    c: Scalar,
    s1: Scalar,
    s2: Scalar,
    r: Scalar,
    vg: Scalar,
    h: Scalar,
)
    requires
        c.canonical(),
        s1.canonical(),
        s2.canonical(),
        r.canonical(),
        vg.canonical(),
        h.canonical(),
    ensures
        sadd(
            smul(sadd(smul(c, ssub(s1, s2)), r), h),
            smul(c, sadd(vg, smul(s2, h))),
        ) == sadd(smul(c, sadd(vg, smul(s1, h))), smul(sone(), smul(r, h))),
{
    lemma_constants();
    let (ci, ai, bi, ri, vi, hi) = (
        c@ as int,
        s1@ as int,
        s2@ as int,
        r@ as int,
        vg@ as int,
        h@ as int,
    );
    stands_itself(c);
    stands_itself(s1);
    stands_itself(s2);
    stands_itself(r);
    stands_itself(vg);
    stands_itself(h);
    stands_itself(sone());
    stands_sub(s1, ai, s2, bi);
    stands_mul(c, ci, ssub(s1, s2), ai - bi);
    stands_add(smul(c, ssub(s1, s2)), ci * (ai - bi), r, ri);
    let z = sadd(smul(c, ssub(s1, s2)), r);
    stands_mul(z, ci * (ai - bi) + ri, h, hi);
    stands_mul(s2, bi, h, hi);
    stands_add(vg, vi, smul(s2, h), bi * hi);
    stands_mul(c, ci, sadd(vg, smul(s2, h)), vi + bi * hi);
    stands_add(
        smul(z, h),
        (ci * (ai - bi) + ri) * hi,
        smul(c, sadd(vg, smul(s2, h))),
        ci * (vi + bi * hi),
    );
    stands_mul(s1, ai, h, hi);
    stands_add(vg, vi, smul(s1, h), ai * hi);
    stands_mul(c, ci, sadd(vg, smul(s1, h)), vi + ai * hi);
    stands_mul(r, ri, h, hi);
    stands_mul(sone(), 1, smul(r, h), ri * hi);
    stands_add(
        smul(c, sadd(vg, smul(s1, h))),
        ci * (vi + ai * hi),
        smul(sone(), smul(r, h)),
        1 * (ri * hi),
    );
    let (x, y) = (ai * hi, bi * hi);
    assert((ci * (ai - bi) + ri) * hi == ci * (ai - bi) * hi + ri * hi) by (nonlinear_arith);
    assert(ci * (ai - bi) * hi == ci * (ai * hi) - ci * (bi * hi)) by (nonlinear_arith);
    assert(ci * (vi + y) == ci * vi + ci * y) by (nonlinear_arith);
    assert(ci * (vi + x) == ci * vi + ci * x) by (nonlinear_arith);
    stands_same(
        sadd(smul(z, h), smul(c, sadd(vg, smul(s2, h)))),
        sadd(smul(c, sadd(vg, smul(s1, h))), smul(sone(), smul(r, h))),
        ci * (vi + ai * hi) + ri * hi,
    );
}

/// What a verifier finds of a proof that `z` commits to the product of what `x`
/// and `y` commit to, and the transcript after it.
pub open spec fn product_checked(
    g: Gens,
    x: CompressedGroup,
    y: CompressedGroup,
    z: CompressedGroup,
    p: ProductProof,
    th: History,
) -> (bool, History) {
    let h1 = said(
        said(said(named(th, "product proof"), "X"@, x.encoding()), "Y"@, y.encoding()),
        "Z"@,
        z.encoding(),
    );
    let h2 = said(
        said(said(h1, "alpha"@, p.alpha.encoding()), "beta"@, p.beta.encoding()),
        "delta"@,
        p.delta.encoding(),
    );
    let c = challenge(h2, "c"@);
    (
        commitment(seq![p.z1], p.z2, g) == pair_commitment(c, sone(), x, p.alpha) && commitment(
            seq![p.z3],
            p.z4,
            g,
        ) == pair_commitment(c, sone(), y, p.beta) && pair_commitment(p.z3, p.z5, x, g.h)
            == pair_commitment(c, sone(), z, p.delta),
        drawn(h2, "c"@),
    )
}

/// A proof of a product holds.
pub proof fn law_product_holds(
    g: Gens,
    x: Scalar,
    rx: Scalar,
    y: Scalar,
    ry: Scalar,
    rz: Scalar,
    th: History,
    rh: History,
)
    requires
        encodes_uniquely(),
        g.g.len() >= 1,
        g.h.valid(),
        x.canonical(),
        rx.canonical(),
        y.canonical(),
        rz.canonical(),
    ensures
        ({
            let o = product_prove(g, x, rx, y, ry, smul(x, y), rz, th, rh);
            product_checked(g, o.x, o.y, o.z, o.proof, th) == (true, o.th)
        }),
{
    let o = product_prove(g, x, rx, y, ry, smul(x, y), rz, th, rh);
    let p = o.proof;
    let b1 = challenge(rh, "b1"@);
    let t1 = drawn(rh, "b1"@);
    let b2 = challenge(t1, "b2"@);
    let t2 = drawn(t1, "b2"@);
    let b3 = challenge(t2, "b3"@);
    let t3 = drawn(t2, "b3"@);
    let b4 = challenge(t3, "b4"@);
    let t4 = drawn(t3, "b4"@);
    let b5 = challenge(t4, "b5"@);
    lemma_canonical_challenge(rh, "b1"@);
    lemma_canonical_challenge(t1, "b2"@);
    lemma_canonical_challenge(t2, "b3"@);
    lemma_canonical_challenge(t3, "b4"@);
    lemma_canonical_challenge(t4, "b5"@);
    let h1 = said(
        said(said(named(th, "product proof"), "X"@, o.x.encoding()), "Y"@, o.y.encoding()),
        "Z"@,
        o.z.encoding(),
    );
    let h2 = said(
        said(said(h1, "alpha"@, p.alpha.encoding()), "beta"@, p.beta.encoding()),
        "delta"@,
        p.delta.encoding(),
    );
    let c = challenge(h2, "c"@);
    lemma_canonical_challenge(h2, "c"@);
    lemma_masked(c, seq![x], rx, seq![b1], b2, g);
    lemma_masked(c, seq![y], ry, seq![b3], b4, g);
    add_comm(b1, smul(c, x));
    add_comm(b2, smul(c, rx));
    add_comm(b3, smul(c, y));
    add_comm(b4, smul(c, ry));
    assert(affine(c, seq![x], seq![b1]) =~= seq![p.z1]);
    assert(affine(c, seq![y], seq![b3]) =~= seq![p.z3]);
    let gl = g.g[0].log();
    let hl = g.h.log();
    lemma_log(g.h);
    lemma_commit_one_log(x, rx, g);
    lemma_commit_one_log(smul(x, y), rz, g);
    lemma_pair_log(b3, b5, o.x, g.h);
    canonical_ops(x, gl);
    lemma_product_sides(c, x, y, rx, rz, b3, b5, smul(x, gl), hl);
    // (x y) g == y (x g)
    mul_comm(x, y);
    mul_assoc(y, x, gl);
    lemma_pair_log(p.z3, p.z5, o.x, g.h);
    lemma_pair_log(c, sone(), o.z, p.delta);
    let (s, t) = (seq![p.z3, p.z5], seq![c, sone()]);
    let (a, b) = (seq![o.x, g.h], seq![o.z, p.delta]);
    lemma_msm(s, a);
    lemma_msm(t, b);
    lemma_msm_same(s, a, t, b);
}

/// The last equation of a proof of a product. `xg` is the first factor times the
/// generator.
proof fn lemma_product_sides(
    c: Scalar,
    x: Scalar,
    y: Scalar,
    rx: Scalar,
    rz: Scalar,
    b3: Scalar,
    b5: Scalar,
    xg: Scalar,
    h: Scalar,
)
    requires
        c.canonical(),
        y.canonical(),
        rx.canonical(),
        rz.canonical(),
        b3.canonical(),
        b5.canonical(),
        xg.canonical(),
        h.canonical(),
    ensures
        ({
            let xl = sadd(xg, smul(rx, h));
            let z3 = sadd(b3, smul(c, y));
            let z5 = sadd(b5, smul(c, ssub(rz, smul(rx, y))));
            sadd(smul(z3, xl), smul(z5, h)) == sadd(
                smul(c, sadd(smul(y, xg), smul(rz, h))),
                smul(sone(), sadd(smul(b3, xl), smul(b5, h))),
            )
        }),
{
    lemma_constants();
    let (ci, yi, ui, wi, pi, qi, gi, hi) = (
        c@ as int,
        y@ as int,
        rx@ as int,
        rz@ as int,
        b3@ as int,
        b5@ as int,
        xg@ as int,
        h@ as int,
    );
    stands_itself(c);
    stands_itself(y);
    stands_itself(rx);
    stands_itself(rz);
    stands_itself(b3);
    stands_itself(b5);
    stands_itself(xg);
    stands_itself(h);
    stands_itself(sone());
    let xl = sadd(xg, smul(rx, h));
    stands_mul(rx, ui, h, hi);
    stands_add(xg, gi, smul(rx, h), ui * hi);
    let li = gi + ui * hi;
    let z3 = sadd(b3, smul(c, y));
    stands_mul(c, ci, y, yi);
    stands_add(b3, pi, smul(c, y), ci * yi);
    let z5 = sadd(b5, smul(c, ssub(rz, smul(rx, y))));
    stands_mul(rx, ui, y, yi);
    stands_sub(rz, wi, smul(rx, y), ui * yi);
    stands_mul(c, ci, ssub(rz, smul(rx, y)), wi - ui * yi);
    stands_add(b5, qi, smul(c, ssub(rz, smul(rx, y))), ci * (wi - ui * yi));
    stands_mul(z3, pi + ci * yi, xl, li);
    stands_mul(z5, qi + ci * (wi - ui * yi), h, hi);
    stands_add(
        smul(z3, xl),
        (pi + ci * yi) * li,
        smul(z5, h),
        (qi + ci * (wi - ui * yi)) * hi,
    );
    stands_mul(y, yi, xg, gi);
    stands_mul(rz, wi, h, hi);
    let zl = sadd(smul(y, xg), smul(rz, h));
    stands_add(smul(y, xg), yi * gi, smul(rz, h), wi * hi);
    stands_mul(c, ci, zl, yi * gi + wi * hi);
    stands_mul(b3, pi, xl, li);
    stands_mul(b5, qi, h, hi);
    let dl = sadd(smul(b3, xl), smul(b5, h));
    stands_add(smul(b3, xl), pi * li, smul(b5, h), qi * hi);
    stands_mul(sone(), 1, dl, pi * li + qi * hi);
    stands_add(
        smul(c, zl),
        ci * (yi * gi + wi * hi),
        smul(sone(), dl),
        1 * (pi * li + qi * hi),
    );
    let (l, r) = (
        (pi + ci * yi) * li + (qi + ci * (wi - ui * yi)) * hi,
        ci * (yi * gi + wi * hi) + 1 * (pi * li + qi * hi),
    );
    assert(l == r) by {
        let cy = ci * yi;
        let m = wi - ui * yi;
        assert((pi + cy) * li == pi * li + cy * li) by (nonlinear_arith);
        assert((qi + ci * m) * hi == qi * hi + ci * m * hi) by (nonlinear_arith);
        assert(cy * (gi + ui * hi) == cy * gi + cy * (ui * hi)) by (nonlinear_arith);
        assert(ci * (wi - ui * yi) * hi == ci * (wi * hi) - ci * (ui * yi * hi))
            by (nonlinear_arith);
        assert((ci * yi) * gi == ci * (yi * gi)) by (nonlinear_arith);
        assert((ci * yi) * (ui * hi) == ci * (ui * yi * hi)) by (nonlinear_arith);
        let (e, f) = (yi * gi, wi * hi);
        assert(ci * (e + f) == ci * e + ci * f) by (nonlinear_arith);
    }
    stands_same(
        sadd(smul(z3, xl), smul(z5, h)),
        sadd(smul(c, zl), smul(sone(), dl)),
        l,
    );
}

/// What a verifier finds of a proof that `cy` commits to the product of the
/// public `a` with what `cx` commits to, and the transcript after it.
pub open spec fn linear_checked(
    g1: Gens,
    gn: Gens,
    cx: CompressedGroup,
    cy: CompressedGroup,
    a: Seq<Scalar>,
    p: DotLinear,
    th: History,
) -> (bool, History) {
    let h1 = said_vector(
        said(said(named(th, "dot product proof"), "Cx"@, cx.encoding()), "Cy"@, cy.encoding()),
        "a"@,
        a,
    );
    let h2 = said(said(h1, "delta"@, p.delta.encoding()), "beta"@, p.beta.encoding());
    let c = challenge(h2, "c"@);
    (
        commitment(p.z, p.z_delta, gn) == pair_commitment(c, sone(), cx, p.delta) && commitment(
            seq![dot(p.z, a)],
            p.z_beta,
            g1,
        ) == pair_commitment(c, sone(), cy, p.beta),
        drawn(h2, "c"@),
    )
}

/// A proof of a product with a public vector holds.
pub proof fn law_linear_holds(
    g1: Gens,
    gn: Gens,
    x: Seq<Scalar>,
    bx: Scalar,
    a: Seq<Scalar>,
    y: Scalar,
    by: Scalar,
    th: History,
    rh: History,
)
    requires
        encodes_uniquely(),
        g1.g.len() >= 1,
        x.len() <= gn.g.len(),
        a.len() == x.len(),
        y == dot(x, a),
    ensures
        ({
            let (p, th1, rh1) = linear_prove(g1, gn, x, bx, a, y, by, th, rh);
            linear_checked(
                g1,
                gn,
                commitment(x, bx, gn),
                commitment(seq![y], by, g1),
                a,
                p,
                th,
            ) == (true, th1)
        }),
{
    reveal(linear_prove);
    let (p, th1, rh1) = linear_prove(g1, gn, x, bx, a, y, by, th, rh);
    let (d, t1) = challenges(rh, "d_vec"@, x.len());
    lemma_challenges_canonical(rh, "d_vec"@, x.len());
    let r_delta = challenge(t1, "r_delta"@);
    let t2 = drawn(t1, "r_delta"@);
    let r_beta = challenge(t2, "r_beta"@);
    lemma_canonical_challenge(t1, "r_delta"@);
    lemma_canonical_challenge(t2, "r_beta"@);
    let (cx, cy) = (commitment(x, bx, gn), commitment(seq![y], by, g1));
    let h1 = said_vector(
        said(said(named(th, "dot product proof"), "Cx"@, cx.encoding()), "Cy"@, cy.encoding()),
        "a"@,
        a,
    );
    let h2 = said(said(h1, "delta"@, p.delta.encoding()), "beta"@, p.beta.encoding());
    let c = challenge(h2, "c"@);
    lemma_masked(c, x, bx, d, r_delta, gn);
    let da = dot(a, d);
    lemma_sum_canonical(pointwise(a, d));
    lemma_masked(c, seq![y], by, seq![da], r_beta, g1);
    assert(affine(c, x, d) =~= added(scaled_list(c, x), d));
    dot_added(scaled_list(c, x), d, a);
    dot_scaled(c, x, a);
    dot_comm(a, d);
    assert(affine(c, seq![y], seq![da]) =~= seq![dot(p.z, a)]);
}

} // verus!
