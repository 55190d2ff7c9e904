//! What is proved of committed values is accepted.
use crate::bullet::{
    fold_rounds, fold_weights, inverse_squares, lemma_weights_len, replay_result, replayable,
    replayed, squares, Folding, Replayed,
};
use crate::bullet_laws::{
    all_invertible, followed, kept, law_replay_follows, lemma_replayed_len, lin, strided,
};
use crate::commitments::{commitment, Gens};
use crate::field::{
    add_assoc, add_comm, add_sub_cancel, canonical_ops, distrib, four, mul_assoc, mul_comm, mul_zero,
    neutral, sub_add, sub_self,
};
use crate::group::{all_valid, encodes_uniquely, lemma_log, lemma_msm, logs, msm, CompressedGroup};
use crate::dense_mlpoly::{
    column, combined_rows, eq_evals, evaluation, left_vars, lemma_eq_evals_len, lemma_factored,
    right_vars, row_commitments,
};
use crate::math::{lemma_log2_of_pow2, log2_up};
use crate::nizk::{dot_opening, dot_prove, dot_verify, pair_commitment, scaled, DotLog};
use crate::poly_eval::{column_weights, eval_prove, eval_verify, plain_prove, plain_verify};
use crate::poly_laws::{law_value_by_rows, lemma_dot_two, lemma_eq_canonical};
use crate::scalar::{lemma_constants, sadd, smul, sone, ssub, szero, Scalar};
use crate::sparse_mlpoly::plain_commitment;
use crate::sums::{
    added, all_canonical, column_sums, dot_added, dot_comm, dot_concat, dot_push, dot_scaled,
    row_sums, scaled_list, sum_exchange,
};
use crate::transcript::{challenge, challenges, drawn, named, said, History};
use crate::vectors::{dot, lemma_sum_canonical, pointwise, repeated};
use vstd::arithmetic::power2::pow2;
use vstd::prelude::*;
use vstd::string::StringSliceAdditionalSpecFns;

verus! {

/// The combination `x g + y q + z h`.
pub open spec fn tri(x: Scalar, y: Scalar, z: Scalar, g: Scalar, q: Scalar, h: Scalar) -> Scalar {
    sadd(sadd(smul(x, g), smul(y, q)), smul(z, h))
}

/// Combinations of three are linear.
pub proof fn lemma_tri(
    s: Scalar,
    x: Scalar,
    y: Scalar,
    z: Scalar,
    x2: Scalar,
    y2: Scalar,
    z2: Scalar,
    g: Scalar,
    q: Scalar,
    h: Scalar,
)
    ensures
        sadd(smul(s, tri(x, y, z, g, q, h)), tri(x2, y2, z2, g, q, h)) == tri(
            sadd(smul(s, x), x2),
            sadd(smul(s, y), y2),
            sadd(smul(s, z), z2),
            g,
            q,
            h,
        ),
{
    let (xg, yq, zh) = (smul(x, g), smul(y, q), smul(z, h));
    distrib(s, sadd(xg, yq), zh);
    distrib(s, xg, yq);
    mul_assoc(s, x, g);
    mul_assoc(s, y, q);
    mul_assoc(s, z, h);
    let (a, b, c) = (smul(s, xg), smul(s, yq), smul(s, zh));
    let (a2, b2, c2) = (smul(x2, g), smul(y2, q), smul(z2, h));
    four(sadd(a, b), c, sadd(a2, b2), c2);
    four(a, b, a2, b2);
    distrib(g, smul(s, x), x2);
    distrib(q, smul(s, y), y2);
    distrib(h, smul(s, z), z2);
}

/// The logarithm of a commitment.
pub proof fn lemma_commitment_log(x: Seq<Scalar>, blind: Scalar, gens: Gens)
    requires
        encodes_uniquely(),
        x.len() <= gens.g.len(),
    ensures
        commitment(x, blind, gens).valid(),
        commitment(x, blind, gens).log() == sadd(
            dot(x, logs(gens.g.take(x.len() as int))),
            smul(blind, gens.h.log()),
        ),
{
    let g = gens.g.take(x.len() as int);
    lemma_msm(x.push(blind), g.push(gens.h));
    assert(logs(g.push(gens.h)) =~= logs(g).push(gens.h.log()));
    dot_push(x, blind, logs(g), gens.h.log());
}

/// The logarithm of a commitment to one value.
pub proof fn lemma_commit_one_log(y: Scalar, blind: Scalar, gens: Gens)
    requires
        encodes_uniquely(),
        gens.g.len() >= 1,
    ensures
        commitment(seq![y], blind, gens).valid(),
        commitment(seq![y], blind, gens).log() == sadd(
            smul(y, gens.g[0].log()),
            smul(blind, gens.h.log()),
        ),
{
    lemma_commitment_log(seq![y], blind, gens);
    let e = Seq::<Scalar>::empty();
    assert(seq![y] =~= e.push(y));
    assert(logs(gens.g.take(1)) =~= e.push(gens.g[0].log()));
    dot_push(e, y, e, gens.g[0].log());
    assert(pointwise(e, e) =~= e);
    canonical_ops(y, gens.g[0].log());
    neutral(smul(y, gens.g[0].log()));
}

/// The logarithm of a combination of two points.
pub proof fn lemma_pair_log(x: Scalar, y: Scalar, p: CompressedGroup, q: CompressedGroup)
    requires
        encodes_uniquely(),
    ensures
        pair_commitment(x, y, p, q).valid(),
        pair_commitment(x, y, p, q).log() == sadd(smul(x, p.log()), smul(y, q.log())),
{
    lemma_msm(seq![x, y], seq![p, q]);
    assert(logs(seq![p, q]) =~= seq![p.log(), q.log()]);
    lemma_dot_two(x, y, p.log(), q.log());
}

/// The logarithm of a multiple of a point.
pub proof fn lemma_scaled_log(p: CompressedGroup, x: Scalar)
    requires
        encodes_uniquely(),
    ensures
        scaled(p, x).valid(),
        scaled(p, x).log() == smul(x, p.log()),
{
    lemma_msm(seq![x], seq![p]);
    let e = Seq::<Scalar>::empty();
    assert(seq![x] =~= e.push(x));
    assert(logs(seq![p]) =~= e.push(p.log()));
    dot_push(e, x, e, p.log());
    assert(pointwise(e, e) =~= e);
    canonical_ops(x, p.log());
    neutral(smul(x, p.log()));
}

/// The inner product of two lists of three.
pub proof fn lemma_dot_three(a: Scalar, b: Scalar, c: Scalar, d: Scalar, e: Scalar, f: Scalar)
    ensures
        dot(seq![a, b, c], seq![d, e, f]) == sadd(sadd(smul(a, d), smul(b, e)), smul(c, f)),
{
    assert(seq![a, b, c] =~= seq![a, b].push(c));
    assert(seq![d, e, f] =~= seq![d, e].push(f));
    dot_push(seq![a, b], c, seq![d, e], f);
    lemma_dot_two(a, b, d, e);
}

/// The equation that a verifier of an inner product checks, in logarithms.
proof fn lemma_last_equation(
    a: Scalar,
    b: Scalar,
    bl: Scalar,
    c: Scalar,
    d: Scalar,
    rb: Scalar,
    rd: Scalar,
    g: Scalar,
    q: Scalar,
    h: Scalar,
)
    requires
        d.canonical(),
        rb.canonical(),
        rd.canonical(),
    ensures
        ({
            let gamma = lin(smul(a, g), smul(a, b), bl, q, h);
            let beta = sadd(smul(d, q), smul(rb, h));
            let delta = sadd(smul(d, g), smul(rd, h));
            let z1 = sadd(d, smul(c, smul(a, b)));
            let z2 = sadd(smul(b, sadd(smul(c, bl), rb)), rd);
            sadd(sadd(smul(smul(c, b), gamma), smul(b, beta)), smul(sone(), delta)) == sadd(
                sadd(smul(z1, g), smul(smul(b, z1), q)),
                smul(z2, h),
            )
        }),
{
    let zero = szero();
    let ab = smul(a, b);
    let cb = smul(c, b);
    let gamma = lin(smul(a, g), ab, bl, q, h);
    let beta = sadd(smul(d, q), smul(rb, h));
    let delta = sadd(smul(d, g), smul(rd, h));
    let z1 = sadd(d, smul(c, ab));
    let z2 = sadd(smul(b, sadd(smul(c, bl), rb)), rd);
    lemma_constants();
    // beta and delta as combinations of three
    mul_zero(g);
    mul_zero(q);
    canonical_ops(d, q);
    canonical_ops(d, g);
    neutral(smul(d, q));
    neutral(smul(d, g));
    assert(beta == tri(zero, d, rb, g, q, h));
    assert(delta == tri(d, zero, rd, g, q, h));
    canonical_ops(smul(d, g), smul(rd, h));
    neutral(delta);
    add_assoc(smul(cb, gamma), smul(b, beta), delta);
    lemma_tri(b, zero, d, rb, d, zero, rd, g, q, h);
    mul_zero(b);
    neutral(d);
    canonical_ops(b, d);
    neutral(smul(b, d));
    lemma_tri(
        cb,
        a,
        ab,
        bl,
        d,
        smul(b, d),
        sadd(smul(b, rb), rd),
        g,
        q,
        h,
    );
    // the coefficient of g
    mul_assoc(c, b, a);
    mul_comm(a, b);
    add_comm(smul(c, ab), d);
    // the coefficient of q
    mul_comm(c, b);
    mul_assoc(b, c, ab);
    distrib(b, smul(c, ab), d);
    // the coefficient of h
    mul_assoc(b, c, bl);
    add_assoc(smul(b, smul(c, bl)), smul(b, rb), rd);
    distrib(b, smul(c, bl), rb);
}

/// What the reduction starts with, in logarithms.
proof fn lemma_first_equation(
    x: Scalar,
    y: Scalar,
    bx: Scalar,
    by: Scalar,
    r: Scalar,
    g: Scalar,
    h: Scalar,
)
    requires
        x.canonical(),
    ensures
        lin(x, y, sadd(bx, smul(r, by)), smul(r, g), h) == sadd(
            smul(sone(), sadd(x, smul(bx, h))),
            smul(r, sadd(smul(y, g), smul(by, h))),
        ),
{
    lemma_constants();
    canonical_ops(x, smul(bx, h));
    neutral(sadd(x, smul(bx, h)));
    distrib(r, smul(y, g), smul(by, h));
    // y (r g) == r (y g)
    mul_assoc(y, r, g);
    mul_comm(y, r);
    mul_assoc(r, y, g);
    distrib(h, bx, smul(r, by));
    mul_assoc(r, by, h);
    four(x, smul(r, smul(y, g)), smul(bx, h), smul(r, smul(by, h)));
}

/// Whether generators are group elements, share the generator of blinds, and
/// there is one for a value.
pub open spec fn gens_valid(gn: Gens, g1: Gens) -> bool {
    &&& all_valid(gn.g)
    &&& g1.g.len() >= 1
    &&& gn.h == g1.h
}

/// The challenges that a verifier of an inner product draws.
pub open spec fn dot_challenges(
    a: Seq<Scalar>,
    cx: CompressedGroup,
    cy: CompressedGroup,
    p: DotLog,
    th: History,
) -> Seq<Scalar> {
    let (r, th1) = dot_opening(a, cx, cy, th);
    replayed(th1, p.l, p.r, p.l.len()).0
}

/// What a prover of an inner product ends with, once its transcript is set
/// aside.
struct Ended {
    start: Folding,
    end: Folding,
    us: Seq<Scalar>,
    r: Scalar,
    c: Scalar,
    d: Scalar,
    r_beta: Scalar,
    r_delta: Scalar,
}

/// A combination whose second part is a sum.
proof fn lemma_lin_split(x: Scalar, d: Scalar, e: Scalar, z: Scalar, q: Scalar, h: Scalar)
    ensures
        lin(x, sadd(d, e), z, q, h) == sadd(lin(x, d, z, q, h), smul(e, q)),
{
    distrib(q, d, e);
    let (dq, eq, zh) = (smul(d, q), smul(e, q), smul(z, h));
    add_assoc(x, dq, eq);
    add_assoc(sadd(x, dq), eq, zh);
    add_comm(eq, zh);
    add_assoc(sadd(x, dq), zh, eq);
}

/// The last entries and commitments that a verifier finds are those of the
/// prover, and the last commitment is off by as much as the value is.
proof fn lemma_seen(
    gn: Gens,
    g1: Gens,
    x: Seq<Scalar>,
    bx: Scalar,
    a: Seq<Scalar>,
    y: Scalar,
    by: Scalar,
    e: Ended,
    lg: nat,
)
    requires
        encodes_uniquely(),
        gens_valid(gn, g1),
        x.len() == pow2(lg),
        a.len() == x.len(),
        x.len() <= gn.g.len(),
        y.canonical(),
        e.start.a == x,
        e.start.b == a,
        e.start.g == gn.g.take(x.len() as int),
        e.start.blind == sadd(bx, smul(e.r, by)),
        followed(e.start, e.end, e.us, scaled(g1.g[0], e.r), gn.h, lg, lg),
    ensures
        ({
            let cx = commitment(x, bx, gn);
            let cy = commitment(seq![y], by, g1);
            let gamma = pair_commitment(sone(), e.r, cx, cy);
            let q = scaled(g1.g[0], e.r);
            let seen = replay_result(e.us, e.end.l, e.end.r, a, gamma, e.start.g);
            &&& cx.valid()
            &&& cy.valid()
            &&& e.end.a.len() == 1
            &&& seen.a == e.end.b[0]
            &&& seen.g.log() == e.end.g[0].log()
            &&& seen.gamma.log() == sadd(
                lin(
                    smul(e.end.a[0], e.end.g[0].log()),
                    smul(e.end.a[0], e.end.b[0]),
                    e.end.blind,
                    q.log(),
                    gn.h.log(),
                ),
                smul(ssub(y, dot(x, a)), q.log()),
            )
        }),
{
    let (g, h, us, end, start, r) = (e.start.g, gn.h, e.us, e.end, e.start, e.r);
    let cx = commitment(x, bx, gn);
    let cy = commitment(seq![y], by, g1);
    let q = scaled(g1.g[0], r);
    let gamma = pair_commitment(sone(), r, cx, cy);
    vstd::arithmetic::power2::lemma2_to64();
    assert((lg - lg) as nat == 0);
    // the last public entry and the last generator
    lemma_weights_len(us);
    assert(strided(a, 1, pow2(lg), 0) =~= a);
    assert(strided(logs(g), 1, pow2(lg), 0) =~= logs(g));
    assert(end.b[0] == dot(fold_weights(us), a));
    dot_comm(a, fold_weights(us));
    lemma_msm(fold_weights(us), g);
    assert(logs(end.g)[0] == end.g[0].log());
    // the last commitment
    lemma_commitment_log(x, bx, gn);
    lemma_commit_one_log(y, by, g1);
    lemma_pair_log(sone(), r, cx, cy);
    lemma_gamma_seen(us, end.l, end.r, gamma);
    lemma_scaled_log(g1.g[0], r);
    lemma_sum_canonical(pointwise(x, logs(g)));
    lemma_first_equation(dot(x, logs(g)), y, bx, by, r, g1.g[0].log(), h.log());
    let d = dot(x, a);
    lemma_sum_canonical(pointwise(x, a));
    sub_add(y, d);
    lemma_lin_split(dot(x, logs(g)), d, ssub(y, d), start.blind, q.log(), h.log());
    let off = smul(ssub(y, d), q.log());
    assert(gamma.log() == sadd(kept(start, q, h), off));
    let (u, v) = (dot(squares(us), logs(end.l)), dot(inverse_squares(us), logs(end.r)));
    add_assoc(kept(start, q, h), u, v);
    add_comm(kept(start, q, h), sadd(u, v));
    add_assoc(sadd(u, v), kept(start, q, h), off);
    lemma_single_dot(end.a, logs(end.g));
    lemma_single_dot(end.a, end.b);
}

/// The two sides of the equation that a verifier checks are the same if and
/// only if what the last commitment is off by vanishes with the weights that it
/// is given.
proof fn lemma_sides(
    g1: Gens,
    q: CompressedGroup,
    h: CompressedGroup,
    e: Ended,
    p: DotLog,
    seen: Replayed,
    off: Scalar,
)
    requires
        encodes_uniquely(),
        h == g1.h,
        e.d.canonical(),
        e.r_beta.canonical(),
        e.r_delta.canonical(),
        seen.a == e.end.b[0],
        seen.g.log() == e.end.g[0].log(),
        seen.gamma.log() == sadd(
            lin(
                smul(e.end.a[0], e.end.g[0].log()),
                smul(e.end.a[0], e.end.b[0]),
                e.end.blind,
                q.log(),
                h.log(),
            ),
            off,
        ),
        p.delta == pair_commitment(e.d, e.r_delta, e.end.g[0], g1.h),
        p.beta == pair_commitment(e.d, e.r_beta, q, g1.h),
        p.z1 == sadd(e.d, smul(e.c, smul(e.end.a[0], e.end.b[0]))),
        p.z2 == sadd(
            smul(e.end.b[0], sadd(smul(e.c, e.end.blind), e.r_beta)),
            e.r_delta,
        ),
    ensures
        p.delta.valid(),
        p.beta.valid(),
        (msm(
            seq![smul(e.c, seen.a), seen.a, sone()],
            seq![seen.gamma, p.beta, p.delta],
        ) == msm(seq![p.z1, smul(seen.a, p.z1), p.z2], seq![seen.g, q, g1.h])) <==> smul(
            smul(e.c, seen.a),
            off,
        ) == szero(),
{
    lemma_pair_log(e.d, e.r_delta, e.end.g[0], g1.h);
    lemma_pair_log(e.d, e.r_beta, q, g1.h);
    lemma_last_equation(
        e.end.a[0],
        e.end.b[0],
        e.end.blind,
        e.c,
        e.d,
        e.r_beta,
        e.r_delta,
        e.end.g[0].log(),
        q.log(),
        h.log(),
    );
    let lw = seq![smul(e.c, seen.a), seen.a, sone()];
    let lp = seq![seen.gamma, p.beta, p.delta];
    let rw = seq![p.z1, smul(seen.a, p.z1), p.z2];
    let rp = seq![seen.g, q, g1.h];
    assert(logs(lp) =~= seq![seen.gamma.log(), p.beta.log(), p.delta.log()]);
    assert(logs(rp) =~= seq![seen.g.log(), q.log(), g1.h.log()]);
    lemma_dot_three(
        smul(e.c, seen.a),
        seen.a,
        sone(),
        seen.gamma.log(),
        p.beta.log(),
        p.delta.log(),
    );
    lemma_dot_three(p.z1, smul(seen.a, p.z1), p.z2, seen.g.log(), q.log(), g1.h.log());
    let cb = smul(e.c, seen.a);
    let whole = lin(
        smul(e.end.a[0], e.end.g[0].log()),
        smul(e.end.a[0], e.end.b[0]),
        e.end.blind,
        q.log(),
        h.log(),
    );
    distrib(cb, whole, off);
    let (x, t) = (smul(cb, whole), smul(cb, off));
    let (y, z) = (smul(seen.a, p.beta.log()), smul(sone(), p.delta.log()));
    // ((x + t) + y) + z == ((x + y) + z) + t
    add_assoc(x, t, y);
    add_comm(t, y);
    add_assoc(x, y, t);
    add_assoc(sadd(x, y), t, z);
    add_comm(t, z);
    add_assoc(sadd(x, y), z, t);
    let right = sadd(sadd(x, y), z);
    assert(dot(lw, logs(lp)) == sadd(right, t));
    assert(dot(rw, logs(rp)) == right);
    lemma_constants();
    canonical_ops(sadd(x, y), z);
    canonical_ops(cb, off);
    neutral(right);
    lemma_msm(lw, lp);
    lemma_msm(rw, rp);
    if t == szero() {
        reveal(msm);
    }
    if msm(lw, lp) == msm(rw, rp) {
        add_comm(right, t);
        add_comm(right, szero());
        add_sub_cancel(t, szero(), right);
    }
}

/// The last challenge of a check of an inner product, and the last entry of the
/// public vector in it.
pub open spec fn last_weights(
    a: Seq<Scalar>,
    cx: CompressedGroup,
    cy: CompressedGroup,
    p: DotLog,
    th: History,
) -> (Scalar, Scalar) {
    let (us, h1) = replayed(dot_opening(a, cx, cy, th).1, p.l, p.r, p.l.len());
    let h2 = said(said(h1, "delta"@, p.delta.encoding()), "beta"@, p.beta.encoding());
    (challenge(h2, "c"@), dot(a, fold_weights(us)))
}

/// A proof of an inner product is accepted if and only if the claimed product is
/// the product, but for challenges that make the difference vanish: it counts
/// with the last challenge, the last entry of the public vector, the challenge
/// that binds the commitments and the generator of the value. Either way prover
/// and verifier are left with the same transcript.
pub proof fn law_inner_product_checked(
    gn: Gens,
    g1: Gens,
    x: Seq<Scalar>,
    bx: Scalar,
    a: Seq<Scalar>,
    y: Scalar,
    by: Scalar,
    th: History,
    rh: History,
)
    requires
        encodes_uniquely(),
        gens_valid(gn, g1),
        x.len() == pow2(log2_up(x.len())),
        log2_up(x.len()) < 32,
        a.len() == x.len(),
        x.len() <= gn.g.len(),
        all_canonical(a),
        y.canonical(),
        ({
            let out = dot_prove(gn, g1, x, bx, a, y, by, th, rh);
            all_invertible(dot_challenges(a, out.cx, out.cy, out.proof, th))
        }),
    ensures
        ({
            let out = dot_prove(gn, g1, x, bx, a, y, by, th, rh);
            let (c, b) = last_weights(a, out.cx, out.cy, out.proof, th);
            let bound = smul(dot_opening(a, out.cx, out.cy, th).0, g1.g[0].log());
            &&& dot_verify(gn, g1, a, out.cx, out.cy, out.proof, th).1 == out.th
            &&& dot_verify(gn, g1, a, out.cx, out.cy, out.proof, th).0 <==> smul(
                smul(c, b),
                smul(ssub(y, dot(x, a)), bound),
            ) == szero()
        }),
{
    reveal(dot_prove);
    reveal(dot_verify);
    let out = dot_prove(gn, g1, x, bx, a, y, by, th, rh);
    let p = out.proof;
    let lg = log2_up(x.len());
    let d = challenge(rh, "d"@);
    let rh1 = drawn(rh, "d"@);
    let r_delta = challenge(rh1, "r_delta"@);
    let rh2 = drawn(rh1, "r_delta"@);
    let r_beta = challenge(rh2, "r_delta"@);
    let rh3 = drawn(rh2, "r_delta"@);
    let (v1, rh4) = challenges(rh3, "blinds_vec_1"@, 2 * lg);
    let (v2, rh5) = challenges(rh4, "blinds_vec_2"@, 2 * lg);
    let (r, th1) = dot_opening(a, out.cx, out.cy, th);
    let q = scaled(g1.g[0], r);
    let g = gn.g.take(x.len() as int);
    let start = Folding {
        a: x,
        b: a,
        g,
        blind: sadd(bx, smul(r, by)),
        th: th1,
        l: Seq::empty(),
        r: Seq::empty(),
    };
    let end = fold_rounds(start, q, gn.h, v1, v2, lg);
    lemma_canonical_challenge(rh, "d"@);
    lemma_canonical_challenge(rh1, "r_delta"@);
    lemma_canonical_challenge(rh2, "r_delta"@);
    assert forall|i: int| 0 <= i < g.len() implies (#[trigger] g[i]).valid() by {
        assert(gn.g[i].valid());
    }
    assert(p.l == end.l && p.r == end.r);
    lemma_rounds_len(start, q, gn.h, v1, v2, lg);
    law_replay_follows(start, q, gn.h, v1, v2, lg, lg);
    let (us, th2) = replayed(th1, p.l, p.r, p.l.len());
    let th3 = said(said(th2, "delta"@, p.delta.encoding()), "beta"@, p.beta.encoding());
    let c = challenge(th3, "c"@);
    let e = Ended { start, end, us, r, c, d, r_beta, r_delta };
    lemma_seen(gn, g1, x, bx, a, y, by, e, lg);
    let gamma = pair_commitment(sone(), r, out.cx, out.cy);
    let seen = replay_result(us, p.l, p.r, a, gamma, g);
    lemma_scaled_log(g1.g[0], r);
    lemma_sides(g1, q, gn.h, e, p, seen, smul(ssub(y, dot(x, a)), q.log()));
    assert(replayable(p.l, p.r, a.len()));
}

/// A proof of an inner product is accepted, and leaves prover and verifier
/// with the same transcript, wherever the challenges have inverses.
pub proof fn law_inner_product_accepted(
    gn: Gens,
    g1: Gens,
    x: Seq<Scalar>,
    bx: Scalar,
    a: Seq<Scalar>,
    y: Scalar,
    by: Scalar,
    th: History,
    rh: History,
)
    requires
        encodes_uniquely(),
        gens_valid(gn, g1),
        x.len() == pow2(log2_up(x.len())),
        log2_up(x.len()) < 32,
        a.len() == x.len(),
        x.len() <= gn.g.len(),
        all_canonical(a),
        y == dot(x, a),
        ({
            let out = dot_prove(gn, g1, x, bx, a, y, by, th, rh);
            all_invertible(dot_challenges(a, out.cx, out.cy, out.proof, th))
        }),
    ensures
        ({
            let out = dot_prove(gn, g1, x, bx, a, y, by, th, rh);
            dot_verify(gn, g1, a, out.cx, out.cy, out.proof, th) == (true, out.th)
        }),
{
    lemma_sum_canonical(pointwise(x, a));
    law_inner_product_checked(gn, g1, x, bx, a, y, by, th, rh);
    let out = dot_prove(gn, g1, x, bx, a, y, by, th, rh);
    let (c, b) = last_weights(a, out.cx, out.cy, out.proof, th);
    let bound = smul(dot_opening(a, out.cx, out.cy, th).0, g1.g[0].log());
    sub_self(y);
    mul_zero(bound);
    mul_comm(smul(c, b), szero());
    mul_zero(smul(c, b));
}

/// The commitment that a verifier ends with, in logarithms.
proof fn lemma_gamma_seen(
    us: Seq<Scalar>,
    l: Seq<CompressedGroup>,
    r: Seq<CompressedGroup>,
    gamma: CompressedGroup,
)
    requires
        encodes_uniquely(),
        us.len() == l.len(),
        us.len() == r.len(),
        gamma.valid(),
    ensures
        msm((squares(us) + inverse_squares(us)).push(sone()), (l + r).push(gamma)).log() == sadd(
            sadd(dot(squares(us), logs(l)), dot(inverse_squares(us), logs(r))),
            gamma.log(),
        ),
{
    let s = squares(us) + inverse_squares(us);
    let pts = (l + r).push(gamma);
    lemma_msm(s.push(sone()), pts);
    assert(logs(pts) =~= (logs(l) + logs(r)).push(gamma.log()));
    dot_push(s, sone(), logs(l) + logs(r), gamma.log());
    dot_concat(squares(us), inverse_squares(us), logs(l), logs(r));
    lemma_log(gamma);
    neutral(gamma.log());
}

proof fn lemma_single_dot(a: Seq<Scalar>, b: Seq<Scalar>)
    requires
        a.len() == 1,
        b.len() == 1,
    ensures
        dot(a, b) == smul(a[0], b[0]),
{
    let e = Seq::<Scalar>::empty();
    assert(a =~= e.push(a[0]));
    assert(b =~= e.push(b[0]));
    dot_push(e, a[0], e, b[0]);
    assert(pointwise(e, e) =~= e);
    canonical_ops(a[0], b[0]);
    neutral(smul(a[0], b[0]));
}

/// A challenge is a reduced scalar.
pub proof fn lemma_canonical_challenge(h: History, label: Seq<char>)
    ensures
        challenge(h, label).canonical(),
{
    let n = crate::scalar::le_value(crate::transcript::merlin_challenge(h, label, 64))
        % crate::scalar::order();
    crate::scalar::lemma_of_view(n);
}

proof fn lemma_rounds_len(
    start: Folding,
    q: CompressedGroup,
    h: CompressedGroup,
    v1: Seq<Scalar>,
    v2: Seq<Scalar>,
    k: nat,
)
    requires
        start.l.len() == 0,
        start.r.len() == 0,
    ensures
        fold_rounds(start, q, h, v1, v2, k).l.len() == k,
        fold_rounds(start, q, h, v1, v2, k).r.len() == k,
    decreases k,
{
    if k > 0 {
        lemma_rounds_len(start, q, h, v1, v2, (k - 1) as nat);
    }
}

/// The logarithms of the commitments to the rows of values, under blinds.
pub proof fn lemma_row_logs(z: Seq<Scalar>, blinds: Seq<Scalar>, gens: Gens, ell: nat, i: int)
    requires
        encodes_uniquely(),
        z.len() == pow2(ell),
        pow2(right_vars(ell)) <= gens.g.len(),
        0 <= i < pow2(left_vars(ell)),
    ensures
        ({
            let w = pow2(right_vars(ell));
            let comm = row_commitments(z, blinds, gens);
            &&& comm.len() == pow2(left_vars(ell))
            &&& comm[i].valid()
            &&& comm[i].log() == sadd(
                dot(logs(gens.g.take(w as int)), Seq::new(w, |j: int| z[i * w + j])),
                smul(blinds[i], gens.h.log()),
            )
        }),
{
    let w = pow2(right_vars(ell));
    lemma_log2_of_pow2(ell);
    lemma_factored(ell);
    let row = z.subrange(i * w, i * w + w);
    assert(0 <= i * w && i * w + w <= pow2(left_vars(ell)) * w) by (nonlinear_arith)
        requires
            0 <= i < pow2(left_vars(ell)),
            0 <= w,
    ;
    assert(row =~= Seq::new(w, |j: int| z[i * w + j]));
    lemma_commitment_log(row, blinds[i], gens);
    let lg = logs(gens.g.take(w as int));
    dot_comm(row, lg);
}

/// The combination of the commitments to rows is the commitment to the
/// combination of the rows.
pub proof fn law_rows_combine(
    z: Seq<Scalar>,
    blinds: Seq<Scalar>,
    l: Seq<Scalar>,
    gens: Gens,
    ell: nat,
)
    requires
        encodes_uniquely(),
        z.len() == pow2(ell),
        pow2(right_vars(ell)) <= gens.g.len(),
        l.len() == pow2(left_vars(ell)),
        blinds.len() == pow2(left_vars(ell)),
    ensures
        msm(l, row_commitments(z, blinds, gens)) == commitment(
            combined_rows(z, l, pow2(right_vars(ell))),
            dot(blinds, l),
            gens,
        ),
        all_valid(row_commitments(z, blinds, gens)),
        row_commitments(z, blinds, gens).len() == pow2(left_vars(ell)),
{
    let w = pow2(right_vars(ell));
    let n = pow2(left_vars(ell));
    let comm = row_commitments(z, blinds, gens);
    let lg = logs(gens.g.take(w as int));
    let hl = gens.h.log();
    let m = |i: int, j: int| z[i * w + j];
    let rs = row_sums(n, lg, m);
    let bs = scaled_list(hl, blinds);
    lemma_log2_of_pow2(ell);
    assert forall|i: int| 0 <= i < n implies (#[trigger] comm[i]).valid() && logs(comm)[i] == added(
        rs,
        bs,
    )[i] by {
        lemma_row_logs(z, blinds, gens, ell, i);
        assert(Seq::new(lg.len(), |j: int| m(i, j)) =~= Seq::new(w, |j: int| z[i * w + j]));
        mul_comm(blinds[i], hl);
    }
    assert(logs(comm) =~= added(rs, bs));
    dot_added(rs, bs, l);
    sum_exchange(l, lg, m);
    let x = combined_rows(z, l, w);
    let cs = column_sums(l, lg.len(), m);
    assert forall|j: int| 0 <= j < w implies cs[j] == x[j] by {
        assert(Seq::new(l.len(), |i: int| m(i, j)) =~= column(z, w as int, l.len(), j));
    }
    assert(cs =~= x);
    dot_comm(lg, x);
    dot_scaled(hl, l, blinds);
    dot_comm(l, blinds);
    let bx = dot(blinds, l);
    mul_comm(hl, bx);
    let pts = gens.g.take(w as int).push(gens.h);
    assert(logs(pts) =~= lg.push(hl));
    dot_push(x, bx, lg, hl);
    assert(dot(l, logs(comm)) == dot(x.push(bx), logs(pts)));
    reveal(msm);
}

/// Commitments without blinds do not depend on the generator of blinds.
pub proof fn law_plain_commitment(z: Seq<Scalar>, a: Gens, b: Gens, ell: nat)
    requires
        encodes_uniquely(),
        z.len() == pow2(ell),
        pow2(right_vars(ell)) <= a.g.len(),
        pow2(right_vars(ell)) <= b.g.len(),
        a.g.take(pow2(right_vars(ell)) as int) == b.g.take(pow2(right_vars(ell)) as int),
    ensures
        plain_commitment(z, a) == plain_commitment(z, b),
{
    let w = pow2(right_vars(ell));
    let blinds = repeated(szero(), pow2(left_vars(ell)));
    lemma_log2_of_pow2(ell);
    lemma_factored(ell);
    let (ca, cb) = (plain_commitment(z, a), plain_commitment(z, b));
    assert forall|i: int| 0 <= i < ca.len() implies ca[i] == cb[i] by {
        let row = z.subrange(i * w, i * w + w);
        assert(0 <= i * w && i * w + w <= pow2(left_vars(ell)) * w) by (nonlinear_arith)
            requires
                0 <= i < pow2(left_vars(ell)),
                0 <= w,
        ;
        let g = a.g.take(w as int);
        assert(logs(g.push(a.h)) =~= logs(g).push(a.h.log()));
        assert(logs(g.push(b.h)) =~= logs(g).push(b.h.log()));
        dot_push(row, szero(), logs(g), a.h.log());
        dot_push(row, szero(), logs(g), b.h.log());
        mul_zero(a.h.log());
        mul_zero(b.h.log());
        reveal(msm);
    }
    assert(ca =~= cb);
}

/// The challenges that a verifier of a value draws.
pub open spec fn opening_challenges(
    gens: (Gens, Gens),
    z: Seq<Scalar>,
    r: Seq<Scalar>,
    th: History,
    rh: History,
) -> Seq<Scalar> {
    claimed_challenges(gens, z, r, evaluation(z, r), th, rh)
}

/// The challenges that a verifier of a claimed value draws.
pub open spec fn claimed_challenges(
    gens: (Gens, Gens),
    z: Seq<Scalar>,
    r: Seq<Scalar>,
    value: Scalar,
    th: History,
    rh: History,
) -> Seq<Scalar> {
    let out = plain_prove(gens, z, r, value, th, rh);
    dot_challenges(
        column_weights(r),
        out.cx,
        out.cy,
        out.proof,
        named(th, "polynomial evaluation proof"),
    )
}

/// What counts in the check of the value of a committed polynomial besides the
/// difference of the claimed value and the value: the last challenge, the last
/// weight of the columns, the challenge that binds the commitments, and the
/// generator of the value.
pub open spec fn value_weight(
    gens: (Gens, Gens),
    r: Seq<Scalar>,
    value: Scalar,
    comm: Seq<CompressedGroup>,
    p: DotLog,
    th: History,
) -> Scalar {
    let h = named(th, "polynomial evaluation proof");
    let cx = msm(eq_evals(r.take(left_vars(r.len()) as int)), comm);
    let cy = commitment(seq![value], szero(), gens.1);
    let (c, b) = last_weights(column_weights(r), cx, cy, p, h);
    smul(smul(c, b), smul(dot_opening(column_weights(r), cx, cy, h).0, gens.1.g[0].log()))
}

/// A proof of a claimed value of a committed polynomial is accepted if and only
/// if the claimed value is the value, but for challenges that make the
/// difference vanish, and leaves prover and verifier with the same transcript
/// either way, wherever the challenges have inverses. The polynomial may be
/// committed to with other generators, as long as they agree with those of the
/// proof.
pub proof fn law_value_checked(
    gens: (Gens, Gens),
    gc: Gens,
    z: Seq<Scalar>,
    r: Seq<Scalar>,
    value: Scalar,
    th: History,
    rh: History,
)
    requires
        encodes_uniquely(),
        gens_valid(gens.0, gens.1),
        z.len() == pow2(r.len()),
        right_vars(r.len()) < 32,
        pow2(right_vars(r.len())) <= gens.0.g.len(),
        pow2(right_vars(r.len())) <= gc.g.len(),
        gc.g.take(pow2(right_vars(r.len())) as int) == gens.0.g.take(
            pow2(right_vars(r.len())) as int,
        ),
        value.canonical(),
        all_invertible(claimed_challenges(gens, z, r, value, th, rh)),
    ensures
        ({
            let out = plain_prove(gens, z, r, value, th, rh);
            let comm = plain_commitment(z, gc);
            let found = plain_verify(gens, r, value, comm, out.proof, th);
            &&& found.1 == out.th
            &&& found.0 <==> smul(
                value_weight(gens, r, value, comm, out.proof, th),
                ssub(value, evaluation(z, r)),
            ) == szero()
        }),
{
    reveal(plain_prove);
    reveal(plain_verify);
    reveal(eval_prove);
    reveal(eval_verify);
    let ell = r.len();
    let out = plain_prove(gens, z, r, value, th, rh);
    let left = left_vars(ell);
    let (rl, rr) = (r.take(left as int), r.skip(left as int));
    let (l, right) = (eq_evals(rl), eq_evals(rr));
    let w = pow2(right_vars(ell));
    let blinds = repeated(szero(), pow2(left));
    lemma_eq_evals_len(rl);
    lemma_eq_evals_len(rr);
    lemma_log2_of_pow2(right_vars(ell));
    lemma_log2_of_pow2(ell);
    assert(rl + rr =~= r);
    law_value_by_rows(z, rl, rr);
    law_plain_commitment(z, gc, gens.0, ell);
    law_rows_combine(z, blinds, l, gens.0, ell);
    let x = combined_rows(z, l, w);
    assert(out.cx == commitment(x, dot(blinds, l), gens.0)) by {
        reveal(dot_prove);
    }
    assert(out.cy == commitment(seq![value], szero(), gens.1)) by {
        reveal(dot_prove);
    }
    assert forall|i: int| 0 <= i < right.len() implies (#[trigger] right[i]).canonical() by {
        lemma_eq_canonical(rr, i);
    }
    law_inner_product_checked(
        gens.0,
        gens.1,
        x,
        dot(blinds, l),
        right,
        value,
        szero(),
        named(th, "polynomial evaluation proof"),
        rh,
    );
    let h = named(th, "polynomial evaluation proof");
    dot_comm(x, right);
    let (c, b) = last_weights(right, out.cx, out.cy, out.proof, h);
    let bound = smul(dot_opening(right, out.cx, out.cy, h).0, gens.1.g[0].log());
    let off = ssub(value, evaluation(z, r));
    // (c b) (off bound) == ((c b) bound) off
    mul_comm(off, bound);
    mul_assoc(smul(c, b), bound, off);
}

/// A proof of the value of a committed polynomial is accepted, and leaves
/// prover and verifier with the same transcript, wherever the challenges have
/// inverses. The polynomial may be committed to with other generators, as long
/// as they agree with those of the proof.
pub proof fn law_value_accepted(
    gens: (Gens, Gens),
    gc: Gens,
    z: Seq<Scalar>,
    r: Seq<Scalar>,
    th: History,
    rh: History,
)
    requires
        encodes_uniquely(),
        gens_valid(gens.0, gens.1),
        z.len() == pow2(r.len()),
        right_vars(r.len()) < 32,
        pow2(right_vars(r.len())) <= gens.0.g.len(),
        pow2(right_vars(r.len())) <= gc.g.len(),
        gc.g.take(pow2(right_vars(r.len())) as int) == gens.0.g.take(
            pow2(right_vars(r.len())) as int,
        ),
        all_invertible(opening_challenges(gens, z, r, th, rh)),
    ensures
        ({
            let value = evaluation(z, r);
            let out = plain_prove(gens, z, r, value, th, rh);
            plain_verify(gens, r, value, plain_commitment(z, gc), out.proof, th) == (
                true,
                out.th,
            )
        }),
{
    let value = evaluation(z, r);
    lemma_sum_canonical(pointwise(eq_evals(r), z));
    law_value_checked(gens, gc, z, r, value, th, rh);
    sub_self(value);
    let out = plain_prove(gens, z, r, value, th, rh);
    let w = value_weight(gens, r, value, plain_commitment(z, gc), out.proof, th);
    mul_comm(w, szero());
    mul_zero(w);
}

/// What a check of an inner product accepts, of any proof: group elements, as
/// many cross commitments as the vector calls for, and responses that meet one
/// equation of logarithms. In it the commitments stand with the cross
/// commitments, weighted with the squares of the challenges and of their
/// inverses, against the generators folded with the challenges.
pub proof fn law_inner_product_equation(
    gn: Gens,
    g1: Gens,
    a: Seq<Scalar>,
    cx: CompressedGroup,
    cy: CompressedGroup,
    p: DotLog,
    th: History,
)
    requires
        encodes_uniquely(),
    ensures
        ({
            let (r, h1) = dot_opening(a, cx, cy, th);
            let us = replayed(h1, p.l, p.r, p.l.len()).0;
            let (c, b) = last_weights(a, cx, cy, p, th);
            let gamma = sadd(
                sadd(dot(squares(us), logs(p.l)), dot(inverse_squares(us), logs(p.r))),
                sadd(cx.log(), smul(r, cy.log())),
            );
            let g = dot(fold_weights(us), logs(gn.g.take(a.len() as int)));
            dot_verify(gn, g1, a, cx, cy, p, th).0 <==> {
                &&& cx.valid()
                &&& cy.valid()
                &&& p.delta.valid()
                &&& p.beta.valid()
                &&& p.l.len() == p.r.len()
                &&& p.l.len() < 32
                &&& a.len() == pow2(p.l.len())
                &&& all_valid(p.l)
                &&& all_valid(p.r)
                &&& sadd(
                    sadd(smul(smul(c, b), gamma), smul(b, p.beta.log())),
                    p.delta.log(),
                ) == sadd(
                    sadd(smul(p.z1, g), smul(smul(b, p.z1), smul(r, g1.g[0].log()))),
                    smul(p.z2, g1.h.log()),
                )
            }
        }),
{
    reveal(dot_verify);
    let (r, h1) = dot_opening(a, cx, cy, th);
    let (us, h2) = replayed(h1, p.l, p.r, p.l.len());
    let (c, b) = last_weights(a, cx, cy, p, th);
    let start = pair_commitment(sone(), r, cx, cy);
    let q = scaled(g1.g[0], r);
    if cx.valid() && cy.valid() && p.delta.valid() && p.beta.valid() && p.l.len() == p.r.len() {
        lemma_replayed_len(h1, p.l, p.r, p.l.len());
        lemma_pair_log(sone(), r, cx, cy);
        lemma_log(cx);
        neutral(cx.log());
        lemma_gamma_seen(us, p.l, p.r, start);
        lemma_scaled_log(g1.g[0], r);
        let g = gn.g.take(a.len() as int);
        lemma_msm(fold_weights(us), g);
        let seen = replay_result(us, p.l, p.r, a, start, g);
        lemma_log(p.delta);
        neutral(p.delta.log());
        let lw = seq![smul(c, b), b, sone()];
        let lp = seq![seen.gamma, p.beta, p.delta];
        let rw = seq![p.z1, smul(b, p.z1), p.z2];
        let rp = seq![seen.g, q, g1.h];
        assert(logs(lp) =~= seq![seen.gamma.log(), p.beta.log(), p.delta.log()]);
        assert(logs(rp) =~= seq![seen.g.log(), q.log(), g1.h.log()]);
        lemma_dot_three(
            smul(c, b),
            b,
            sone(),
            seen.gamma.log(),
            p.beta.log(),
            p.delta.log(),
        );
        lemma_dot_three(p.z1, smul(b, p.z1), p.z2, seen.g.log(), q.log(), g1.h.log());
        lemma_msm(lw, lp);
        lemma_msm(rw, rp);
        if dot(lw, logs(lp)) == dot(rw, logs(rp)) {
            reveal(msm);
        }
    }
}

/// What a check of a value accepts: a commitment of as many group elements as
/// the point calls for rows, and a proof of the product of their combination,
/// by the weights of the rows, with the weights of the columns.
pub proof fn law_value_equation(
    gens: (Gens, Gens),
    r: Seq<Scalar>,
    value: Scalar,
    comm: Seq<CompressedGroup>,
    p: DotLog,
    th: History,
)
    ensures
        ({
            let k = (r.len() / 2) as int;
            plain_verify(gens, r, value, comm, p, th).0 <==> {
                &&& comm.len() == pow2(k as nat)
                &&& all_valid(comm)
                &&& dot_verify(
                    gens.0,
                    gens.1,
                    eq_evals(r.skip(k)),
                    msm(eq_evals(r.take(k)), comm),
                    commitment(seq![value], szero(), gens.1),
                    p,
                    th.push(
                        (true, "protocol-name"@, "polynomial evaluation proof".spec_bytes()),
                    ),
                ).0
            }
        }),
{
    reveal(plain_verify);
    reveal(eval_verify);
}

} // verus!
