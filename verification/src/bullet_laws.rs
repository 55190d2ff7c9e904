//! What the inner-product reduction keeps.
use crate::bullet::{
    cross, fold_once, fold_rounds, fold_weights, folded, folded_points, inverse_or_zero,
    inverse_squares, lemma_weights_len, replayed, squares, Folding,
};
use crate::field::{add_assoc, add_comm, canonical_ops, distrib, four, mul_assoc, mul_comm, neutral};
use crate::group::{all_valid, encodes_uniquely, lemma_msm, logs, CompressedGroup};
use crate::poly_laws::lemma_dot_two;
use crate::scalar::{
    is_inverse, lemma_constants, lemma_scalar_injective, lemma_smul_view, sadd, sinv, smul, sone,
    szero, Scalar,
};
use crate::sums::{added, dot_added, dot_concat, dot_push, dot_scaled, scaled_list};
use crate::transcript::{challenge, said, History};
use crate::vectors::{dot, lemma_sum_canonical, pointwise};
use vstd::arithmetic::power2::{lemma_pow2_pos, lemma_pow2_unfold, pow2};
use vstd::prelude::*;

verus! {

/// The combination `x + y q + z h`.
pub open spec fn lin(x: Scalar, y: Scalar, z: Scalar, q: Scalar, h: Scalar) -> Scalar {
    sadd(sadd(x, smul(y, q)), smul(z, h))
}

/// Combinations are linear.
pub proof fn lemma_lin(
    x: Scalar,
    y: Scalar,
    z: Scalar,
    s: Scalar,
    x2: Scalar,
    y2: Scalar,
    z2: Scalar,
    q: Scalar,
    h: Scalar,
)
    ensures
        lin(sadd(x, smul(s, x2)), sadd(y, smul(s, y2)), sadd(z, smul(s, z2)), q, h) == sadd(
            lin(x, y, z, q, h),
            smul(s, lin(x2, y2, z2, q, h)),
        ),
{
    distrib(q, y, smul(s, y2));
    mul_assoc(s, y2, q);
    distrib(h, z, smul(s, z2));
    mul_assoc(s, z2, h);
    let (yq, y2q, zh, z2h) = (smul(y, q), smul(y2, q), smul(z, h), smul(z2, h));
    four(x, smul(s, x2), yq, smul(s, y2q));
    distrib(s, x2, y2q);
    four(sadd(x, yq), smul(s, sadd(x2, y2q)), zh, smul(s, z2h));
    distrib(s, sadd(x2, y2q), z2h);
}

/// What a reduction keeps: the logarithm of the commitment to the vector on
/// its generators, to the product on `q` and to the blind on `h`.
pub open spec fn kept(s: Folding, q: CompressedGroup, h: CompressedGroup) -> Scalar {
    lin(dot(s.a, logs(s.g)), dot(s.a, s.b), s.blind, q.log(), h.log())
}

/// A nonzero scalar and its inverse cancel.
pub proof fn lemma_inverse(u: Scalar)
    requires
        u@ != 0,
        exists|i: Scalar| is_inverse(u, i),
    ensures
        smul(u, inverse_or_zero(u)) == sone(),
        smul(inverse_or_zero(u), u) == sone(),
{
    let v = sinv(u);
    crate::scalar::lemma_sinv(u);
    lemma_smul_view(u, v);
    lemma_constants();
    lemma_scalar_injective(smul(u, v), sone());
    mul_comm(u, v);
}

/// The inner product of two folded vectors is that of the vectors and the two
/// cross products.
pub proof fn lemma_fold_dot(a: Seq<Scalar>, b: Seq<Scalar>, u: Scalar, v: Scalar, n: nat)
    requires
        a.len() == 2 * n,
        b.len() == 2 * n,
        smul(u, v) == sone(),
        smul(v, u) == sone(),
    ensures
        ({
            let (al, ar) = (a.take(n as int), a.skip(n as int));
            let (bl, br) = (b.take(n as int), b.skip(n as int));
            dot(folded(a, u, v), folded(b, v, u)) == sadd(
                sadd(dot(a, b), smul(smul(u, u), dot(al, br))),
                smul(smul(v, v), dot(ar, bl)),
            )
        }),
{
    let (al, ar) = (a.take(n as int), a.skip(n as int));
    let (bl, br) = (b.take(n as int), b.skip(n as int));
    let fa = folded(a, u, v);
    let fb = folded(b, v, u);
    assert forall|i: int| 0 <= i < n implies fa[i] == added(
        scaled_list(u, al),
        scaled_list(v, ar),
    )[i] && fb[i] == added(scaled_list(v, bl), scaled_list(u, br))[i] by {
        mul_comm(a[i], u);
        mul_comm(b[i], v);
    }
    let (ua, va) = (scaled_list(u, al), scaled_list(v, ar));
    let (vb, ub) = (scaled_list(v, bl), scaled_list(u, br));
    assert(fa =~= added(ua, va));
    assert(fb =~= added(vb, ub));
    dot_added(ua, va, fb);
    dot_added(vb, ub, ua);
    dot_added(vb, ub, va);
    let (x, y, z, w) = (dot(al, bl), dot(al, br), dot(ar, bl), dot(ar, br));
    dot_scaled(u, al, vb);
    dot_scaled(v, al, bl);
    dot_scaled(u, al, ub);
    dot_scaled(u, al, br);
    dot_scaled(v, ar, vb);
    dot_scaled(v, ar, bl);
    dot_scaled(v, ar, ub);
    dot_scaled(u, ar, br);
    mul_assoc(u, v, x);
    mul_assoc(u, u, y);
    mul_assoc(v, v, z);
    mul_assoc(v, u, w);
    lemma_sum_canonical(pointwise(al, bl));
    lemma_sum_canonical(pointwise(ar, br));
    neutral(x);
    neutral(w);
    let (yy, zz) = (smul(smul(u, u), y), smul(smul(v, v), z));
    // (x + yy) + (zz + w) == ((x + w) + yy) + zz
    add_comm(zz, w);
    four(x, yy, w, zz);
    add_assoc(sadd(x, w), yy, zz);
    assert(a =~= al + ar);
    assert(b =~= bl + br);
    dot_concat(al, ar, bl, br);
}

/// The logarithms of folded generators are the folded logarithms.
pub proof fn lemma_fold_logs(g: Seq<CompressedGroup>, x: Scalar, y: Scalar)
    requires
        encodes_uniquely(),
    ensures
        logs(folded_points(g, x, y)) == folded(logs(g), x, y),
{
    let n = (g.len() / 2) as int;
    let p = folded_points(g, x, y);
    assert forall|i: int| 0 <= i < n implies logs(p)[i] == folded(logs(g), x, y)[i] by {
        let pts = seq![g[i], g[n + i]];
        lemma_msm(seq![x, y], pts);
        assert(logs(pts) =~= seq![g[i].log(), g[n + i].log()]);
        lemma_dot_two(x, y, g[i].log(), g[n + i].log());
        mul_comm(x, g[i].log());
    }
    assert(logs(p) =~= folded(logs(g), x, y));
}

/// The logarithm of a cross commitment.
pub proof fn lemma_cross_log(
    a: Seq<Scalar>,
    b: Seq<Scalar>,
    g: Seq<CompressedGroup>,
    blind: Scalar,
    q: CompressedGroup,
    h: CompressedGroup,
)
    requires
        encodes_uniquely(),
        a.len() == g.len(),
    ensures
        cross(a, b, g, blind, q, h).valid(),
        cross(a, b, g, blind, q, h).log() == lin(
            dot(a, logs(g)),
            dot(a, b),
            blind,
            q.log(),
            h.log(),
        ),
{
    let s = a.push(dot(a, b)).push(blind);
    let p = g.push(q).push(h);
    lemma_msm(s, p);
    assert(logs(p) =~= logs(g).push(q.log()).push(h.log()));
    dot_push(a.push(dot(a, b)), blind, logs(g).push(q.log()), h.log());
    dot_push(a, dot(a, b), logs(g), q.log());
}

/// What one round adds to what is kept: the left cross commitment times the
/// square of the challenge, and the right one times the square of its inverse.
pub proof fn law_round_keeps(
    s: Folding,
    q: CompressedGroup,
    h: CompressedGroup,
    blind_l: Scalar,
    blind_r: Scalar,
    n: nat,
    u: Scalar,
)
    requires
        encodes_uniquely(),
        n >= 1,
        s.a.len() == 2 * n,
        s.b.len() == 2 * n,
        s.g.len() == 2 * n,
        ({
            let next = fold_once(s, q, h, blind_l, blind_r);
            u == challenge(
                said(said(s.th, "L"@, next.l.last().encoding()), "R"@, next.r.last().encoding()),
                "u"@,
            )
        }),
        u@ != 0,
        exists|i: Scalar| is_inverse(u, i),
    ensures
        ({
            let next = fold_once(s, q, h, blind_l, blind_r);
            let v = inverse_or_zero(u);
            &&& kept(next, q, h) == sadd(
                sadd(kept(s, q, h), smul(smul(u, u), next.l.last().log())),
                smul(smul(v, v), next.r.last().log()),
            )
            &&& next.l.last().valid()
            &&& next.r.last().valid()
            &&& next.a.len() == n
            &&& next.b == folded(s.b, v, u)
            &&& logs(next.g) == folded(logs(s.g), v, u)
            &&& next.b.len() == n
            &&& next.g.len() == n
        }),
{
    let next = fold_once(s, q, h, blind_l, blind_r);
    let v = inverse_or_zero(u);
    let k = n as int;
    let (al, ar) = (s.a.take(k), s.a.skip(k));
    let (bl, br) = (s.b.take(k), s.b.skip(k));
    let (gl, gr) = (s.g.take(k), s.g.skip(k));
    let lg = logs(s.g);
    lemma_cross_log(al, br, gr, blind_l, q, h);
    lemma_cross_log(ar, bl, gl, blind_r, q, h);
    lemma_inverse(u);
    lemma_fold_logs(s.g, v, u);
    lemma_fold_dot(s.a, lg, u, v, n);
    lemma_fold_dot(s.a, s.b, u, v, n);
    assert(logs(gl) =~= lg.take(k));
    assert(logs(gr) =~= lg.skip(k));
    let (uu, vv) = (smul(u, u), smul(v, v));
    // the blind
    mul_assoc(blind_l, u, u);
    mul_comm(blind_l, uu);
    mul_assoc(blind_r, v, v);
    mul_comm(blind_r, vv);
    let (x1, x2, x3) = (dot(s.a, lg), dot(al, logs(gr)), dot(ar, logs(gl)));
    let (y1, y2, y3) = (dot(s.a, s.b), dot(al, br), dot(ar, bl));
    let (ql, hl) = (q.log(), h.log());
    lemma_lin(x1, y1, s.blind, uu, x2, y2, blind_l, ql, hl);
    lemma_lin(
        sadd(x1, smul(uu, x2)),
        sadd(y1, smul(uu, y2)),
        sadd(s.blind, smul(uu, blind_l)),
        vv,
        x3,
        y3,
        blind_r,
        ql,
        hl,
    );
}

/// Replaying depends only on the cross commitments that are replayed.
pub proof fn lemma_replayed_front(
    th: History,
    l: Seq<CompressedGroup>,
    r: Seq<CompressedGroup>,
    x: CompressedGroup,
    y: CompressedGroup,
    k: nat,
)
    requires
        k <= l.len(),
        k <= r.len(),
    ensures
        replayed(th, l.push(x), r.push(y), k) == replayed(th, l, r, k),
    decreases k,
{
    if k > 0 {
        lemma_replayed_front(th, l, r, x, y, (k - 1) as nat);
    }
}

/// Every `w`-th entry, from `j` on.
pub open spec fn strided(b: Seq<Scalar>, w: nat, count: nat, j: int) -> Seq<Scalar> {
    Seq::new(count, |i: int| b[i * w + j])
}

/// Two lists, entry by entry in turn.
pub open spec fn interleaved(a: Seq<Scalar>, b: Seq<Scalar>) -> Seq<Scalar> {
    Seq::new(
        2 * a.len(),
        |i: int|
            if i % 2 == 0 {
                a[i / 2]
            } else {
                b[i / 2]
            },
    )
}

/// The inner product of interleaved lists.
pub proof fn lemma_dot_interleaved(a: Seq<Scalar>, b: Seq<Scalar>, c: Seq<Scalar>, d: Seq<Scalar>)
    requires
        a.len() == b.len(),
        a.len() == c.len(),
        a.len() == d.len(),
    ensures
        dot(interleaved(a, b), interleaved(c, d)) == sadd(dot(a, c), dot(b, d)),
    decreases a.len(),
{
    if a.len() == 0 {
        let e = Seq::<Scalar>::empty();
        assert(pointwise(interleaved(a, b), interleaved(c, d)) =~= e);
        assert(pointwise(a, c) =~= e);
        assert(pointwise(b, d) =~= e);
        lemma_constants();
        neutral(szero());
    } else {
        let (a0, b0, c0, d0) = (a.drop_last(), b.drop_last(), c.drop_last(), d.drop_last());
        lemma_dot_interleaved(a0, b0, c0, d0);
        let (x, y) = (interleaved(a0, b0), interleaved(c0, d0));
        assert(interleaved(a, b) =~= x.push(a.last()).push(b.last()));
        assert(interleaved(c, d) =~= y.push(c.last()).push(d.last()));
        dot_push(x.push(a.last()), b.last(), y.push(c.last()), d.last());
        dot_push(x, a.last(), y, c.last());
        assert(a =~= a0.push(a.last()) && c =~= c0.push(c.last()));
        assert(b =~= b0.push(b.last()) && d =~= d0.push(d.last()));
        dot_push(a0, a.last(), c0, c.last());
        dot_push(b0, b.last(), d0, d.last());
        let (p, q) = (smul(a.last(), c.last()), smul(b.last(), d.last()));
        // ((X + Y) + p) + q == (X + p) + (Y + q)
        add_assoc(sadd(dot(a0, c0), dot(b0, d0)), p, q);
        four(dot(a0, c0), dot(b0, d0), p, q);
    }
}

/// The weights with one challenge more.
pub proof fn lemma_weights_step(us: Seq<Scalar>, u: Scalar)
    ensures
        fold_weights(us.push(u)) == interleaved(
            scaled_list(inverse_or_zero(u), fold_weights(us)),
            scaled_list(u, fold_weights(us)),
        ),
{
    let t = fold_weights(us);
    let w = us.push(u);
    assert(w.drop_last() =~= us);
    let v = inverse_or_zero(u);
    let il = interleaved(scaled_list(v, t), scaled_list(u, t));
    assert forall|i: int| 0 <= i < 2 * t.len() implies fold_weights(w)[i] == il[i] by {
        mul_comm(t[i / 2], u);
        mul_comm(t[i / 2], v);
    }
    assert(fold_weights(w) =~= il);
}

/// A folded list, where each entry is already a weighted sum over the list at
/// the start.
proof fn lemma_folded_weights(b: Seq<Scalar>, b0: Seq<Scalar>, us: Seq<Scalar>, u: Scalar, n: nat)
    requires
        n >= 1,
        b.len() == 2 * n,
        b0.len() == pow2(us.len()) * (2 * n),
        forall|j: int|
            0 <= j < 2 * n ==> #[trigger] b[j] == dot(
                fold_weights(us),
                strided(b0, 2 * n, pow2(us.len()), j),
            ),
    ensures
        forall|j: int|
            0 <= j < n ==> #[trigger] folded(b, inverse_or_zero(u), u)[j] == dot(
                fold_weights(us.push(u)),
                strided(b0, n, pow2(us.len() + 1), j),
            ),
{
    let v = inverse_or_zero(u);
    let t = fold_weights(us);
    let c = pow2(us.len());
    lemma_weights_len(us);
    lemma_weights_step(us, u);
    lemma_pow2_unfold(us.len() + 1);
    assert forall|j: int| 0 <= j < n implies #[trigger] folded(b, v, u)[j] == dot(
        fold_weights(us.push(u)),
        strided(b0, n, pow2(us.len() + 1), j),
    ) by {
        let (lo, hi) = (strided(b0, 2 * n, c, j), strided(b0, 2 * n, c, j + n));
        let all = strided(b0, n, 2 * c, j);
        assert forall|i: int| 0 <= i < 2 * c implies all[i] == interleaved(lo, hi)[i] by {
            if i % 2 == 0 {
                assert(i * n + j == (i / 2) * (2 * n) + j) by (nonlinear_arith)
                    requires
                        i == 2 * (i / 2),
                ;
            } else {
                assert(i * n + j == (i / 2) * (2 * n) + (j + n)) by (nonlinear_arith)
                    requires
                        i == 2 * (i / 2) + 1,
                ;
            }
        }
        assert(all =~= interleaved(lo, hi));
        lemma_dot_interleaved(scaled_list(v, t), scaled_list(u, t), lo, hi);
        dot_scaled(v, t, lo);
        dot_scaled(u, t, hi);
        assert(b[j] == dot(t, lo));
        assert(b[n + j] == dot(t, hi));
        mul_comm(b[j], v);
    }
}

/// The squares with one challenge more.
proof fn lemma_squares_push(us: Seq<Scalar>, u: Scalar)
    ensures
        squares(us.push(u)) == squares(us).push(smul(u, u)),
        inverse_squares(us.push(u)) == inverse_squares(us).push(
            smul(inverse_or_zero(u), inverse_or_zero(u)),
        ),
{
    assert(squares(us.push(u)) =~= squares(us).push(smul(u, u)));
    assert(inverse_squares(us.push(u)) =~= inverse_squares(us).push(
        smul(inverse_or_zero(u), inverse_or_zero(u)),
    ));
}

/// Whether every challenge of a list has an inverse.
pub open spec fn all_invertible(us: Seq<Scalar>) -> bool {
    forall|i: int|
        0 <= i < us.len() ==> (#[trigger] us[i])@ != 0 && exists|v: Scalar| is_inverse(us[i], v)
}

/// The state after `k` rounds, as a verifier follows it.
pub open spec fn followed(
    start: Folding,
    s: Folding,
    us: Seq<Scalar>,
    q: CompressedGroup,
    h: CompressedGroup,
    n: nat,
    k: nat,
) -> bool {
    let w = pow2((n - k) as nat);
    &&& s.l.len() == k
    &&& s.r.len() == k
    &&& us.len() == k
    &&& s.a.len() == w
    &&& s.b.len() == w
    &&& s.g.len() == w
    &&& all_valid(s.l)
    &&& all_valid(s.r)
    &&& kept(s, q, h) == sadd(
        sadd(kept(start, q, h), dot(squares(us), logs(s.l))),
        dot(inverse_squares(us), logs(s.r)),
    )
    &&& forall|j: int|
        0 <= j < w ==> #[trigger] s.b[j] == dot(fold_weights(us), strided(start.b, w, pow2(k), j))
    &&& forall|j: int|
        0 <= j < w ==> #[trigger] logs(s.g)[j] == dot(
            fold_weights(us),
            strided(logs(start.g), w, pow2(k), j),
        )
}

/// A verifier that replays the cross commitments of a reduction sees the same
/// challenges, and keeps what the reduction keeps.
pub proof fn law_replay_follows(
    start: Folding,
    q: CompressedGroup,
    h: CompressedGroup,
    v1: Seq<Scalar>,
    v2: Seq<Scalar>,
    n: nat,
    k: nat,
)
    requires
        encodes_uniquely(),
        k <= n,
        start.a.len() == pow2(n),
        start.b.len() == pow2(n),
        start.g.len() == pow2(n),
        start.l.len() == 0,
        start.r.len() == 0,
        crate::sums::all_canonical(start.b),
        all_valid(start.g),
        ({
            let s = fold_rounds(start, q, h, v1, v2, k);
            all_invertible(replayed(start.th, s.l, s.r, k).0)
        }),
    ensures
        ({
            let s = fold_rounds(start, q, h, v1, v2, k);
            let (us, th) = replayed(start.th, s.l, s.r, k);
            &&& th == s.th
            &&& followed(start, s, us, q, h, n, k)
        }),
    decreases k,
{
    lemma_constants();
    if k == 0 {
        vstd::arithmetic::power2::lemma2_to64();
        let w = pow2(n);
        let us = Seq::<Scalar>::empty();
        assert(pointwise(squares(us), logs(start.l)) =~= us);
        assert(pointwise(inverse_squares(us), logs(start.r)) =~= us);
        let x = kept(start, q, h);
        canonical_ops(
            sadd(dot(start.a, logs(start.g)), smul(dot(start.a, start.b), q.log())),
            smul(start.blind, h.log()),
        );
        neutral(x);
        assert forall|j: int| 0 <= j < w implies #[trigger] start.b[j] == dot(
            fold_weights(us),
            strided(start.b, w, pow2(0), j),
        ) by {
            lemma_single(start.b, w, j);
        }
        assert forall|j: int| 0 <= j < w implies #[trigger] logs(start.g)[j] == dot(
            fold_weights(us),
            strided(logs(start.g), w, pow2(0), j),
        ) by {
            assert(start.g[j].valid());
            crate::group::lemma_log(start.g[j]);
            lemma_single(logs(start.g), w, j);
        }
    } else {
        let p = (k - 1) as nat;
        let s0 = fold_rounds(start, q, h, v1, v2, p);
        let s = fold_rounds(start, q, h, v1, v2, k);
        lemma_lengths(start, q, h, v1, v2, p);
        lemma_replayed_front(start.th, s0.l, s0.r, s.l.last(), s.r.last(), p);
        assert(s.l =~= s0.l.push(s.l.last()));
        assert(s.r =~= s0.r.push(s.r.last()));
        let (us0, th0) = replayed(start.th, s0.l, s0.r, p);
        let (us, th) = replayed(start.th, s.l, s.r, k);
        lemma_replayed_len(start.th, s0.l, s0.r, p);
        assert forall|i: int| 0 <= i < us0.len() implies (#[trigger] us0[i])@ != 0 && exists|
            v: Scalar,
        | is_inverse(us0[i], v) by {
            assert(us[i] == us0[i]);
        }
        law_replay_follows(start, q, h, v1, v2, n, p);
        let u = us.last();
        assert(us =~= us0.push(u));
        let m = pow2((n - k) as nat);
        lemma_pow2_unfold((n - p) as nat);
        lemma_pow2_pos((n - k) as nat);
        law_round_keeps(s0, q, h, v1[k - 1], v2[k - 1], m, u);
        lemma_kept_step(start, s0, s, us0, u, q, h);
        vstd::arithmetic::power2::lemma_pow2_adds(p, (n - p) as nat);
        assert(p + (n - p) as nat == n);
        lemma_folded_weights(s0.b, start.b, us0, u, m);
        lemma_folded_weights(logs(s0.g), logs(start.g), us0, u, m);
        assert(s.l[k - 1].valid() && s.r[k - 1].valid());
    }
}

/// What is kept after one round more.
proof fn lemma_kept_step(
    start: Folding,
    s0: Folding,
    s: Folding,
    us0: Seq<Scalar>,
    u: Scalar,
    q: CompressedGroup,
    h: CompressedGroup,
)
    requires
        s.l == s0.l.push(s.l.last()),
        s.r == s0.r.push(s.r.last()),
        us0.len() == s0.l.len(),
        us0.len() == s0.r.len(),
        kept(s0, q, h) == sadd(
            sadd(kept(start, q, h), dot(squares(us0), logs(s0.l))),
            dot(inverse_squares(us0), logs(s0.r)),
        ),
        kept(s, q, h) == sadd(
            sadd(kept(s0, q, h), smul(smul(u, u), s.l.last().log())),
            smul(smul(inverse_or_zero(u), inverse_or_zero(u)), s.r.last().log()),
        ),
    ensures
        kept(s, q, h) == sadd(
            sadd(kept(start, q, h), dot(squares(us0.push(u)), logs(s.l))),
            dot(inverse_squares(us0.push(u)), logs(s.r)),
        ),
{
    let v = inverse_or_zero(u);
    lemma_squares_push(us0, u);
    assert(logs(s.l) =~= logs(s0.l).push(s.l.last().log()));
    assert(logs(s.r) =~= logs(s0.r).push(s.r.last().log()));
    dot_push(squares(us0), smul(u, u), logs(s0.l), s.l.last().log());
    dot_push(inverse_squares(us0), smul(v, v), logs(s0.r), s.r.last().log());
    let k0 = kept(start, q, h);
    let (x, y) = (dot(squares(us0), logs(s0.l)), dot(inverse_squares(us0), logs(s0.r)));
    let (a, b) = (smul(smul(u, u), s.l.last().log()), smul(smul(v, v), s.r.last().log()));
    // (((k + x) + y) + a) + b == (k + (x + a)) + (y + b)
    add_assoc(sadd(sadd(k0, x), y), a, b);
    add_assoc(sadd(k0, x), y, sadd(a, b));
    add_comm(a, b);
    add_assoc(y, b, a);
    add_comm(sadd(y, b), a);
    add_assoc(sadd(k0, x), a, sadd(y, b));
    add_assoc(k0, x, a);
}

proof fn lemma_single(b: Seq<Scalar>, w: nat, j: int)
    requires
        0 <= j < b.len(),
        b[j].canonical(),
    ensures
        dot(fold_weights(Seq::empty()), strided(b, w, 1, j)) == b[j],
{
    let s = strided(b, w, 1, j);
    assert(0 * w + j == j);
    let e = Seq::<Scalar>::empty();
    assert(fold_weights(Seq::empty()) =~= e.push(sone()));
    assert(s =~= e.push(b[j]));
    dot_push(e, sone(), e, b[j]);
    assert(pointwise(e, e) =~= e);
    canonical_ops(sone(), b[j]);
    neutral(smul(sone(), b[j]));
    neutral(b[j]);
}

proof fn lemma_lengths(
    start: Folding,
    q: CompressedGroup,
    h: CompressedGroup,
    v1: Seq<Scalar>,
    v2: Seq<Scalar>,
    k: nat,
)
    requires
        start.l.len() == 0,
        start.r.len() == 0,
    ensures
        fold_rounds(start, q, h, v1, v2, k).l.len() == k,
        fold_rounds(start, q, h, v1, v2, k).r.len() == k,
    decreases k,
{
    if k > 0 {
        lemma_lengths(start, q, h, v1, v2, (k - 1) as nat);
    }
}

pub proof fn lemma_replayed_len(th: History, l: Seq<CompressedGroup>, r: Seq<CompressedGroup>, k: nat)
    ensures
        replayed(th, l, r, k).0.len() == k,
    decreases k,
{
    if k > 0 {
        lemma_replayed_len(th, l, r, (k - 1) as nat);
    }
}

} // verus!
