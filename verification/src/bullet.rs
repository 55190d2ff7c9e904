//! The logarithmic inner-product reduction.
//!
//! A round folds two vectors and the generators in half, and says the two
//! cross commitments that let a verifier follow.
use crate::group::{
    all_valid, msm, multiscalar_mul, try_multiscalar_mul, CompressedGroup,
};
use crate::math::pow_2;
use crate::scalar::{sadd, sinv, smul, sone, szero, Scalar};
use crate::transcript::{append_point, challenge, challenge_scalar, drawn, history, said, History};
use crate::vectors::{dot, dot_of, part};
use merlin::Transcript;
use vstd::arithmetic::power2::{lemma_pow2_pos, lemma_pow2_unfold, pow2};
use vstd::prelude::*;

verus! {

/// The inverse of a scalar, and zero for zero.
pub open spec fn inverse_or_zero(u: Scalar) -> Scalar {
    if u@ == 0 {
        szero()
    } else {
        sinv(u)
    }
}

/// The inverse of a scalar, and zero for zero.
pub fn invert_or_zero(u: &Scalar) -> (r: Scalar)
    ensures
        r == inverse_or_zero(*u),
{
    match u.invert() {
        Some(i) => i,
        None => Scalar::zero(),
    }
}

/// Where a reduction stands: the two vectors, the generators, the blind, the
/// transcript, and the cross commitments said so far.
#[verifier::ext_equal]
pub struct Folding {
    /// The committed vector.
    pub a: Seq<Scalar>,
    /// The public vector.
    pub b: Seq<Scalar>,
    /// The generators of the committed vector.
    pub g: Seq<CompressedGroup>,
    /// The blind of the commitment.
    pub blind: Scalar,
    /// The transcript.
    pub th: History,
    /// The left cross commitments.
    pub l: Seq<CompressedGroup>,
    /// The right cross commitments.
    pub r: Seq<CompressedGroup>,
}

/// The halves of a vector, combined.
pub open spec fn folded(v: Seq<Scalar>, x: Scalar, y: Scalar) -> Seq<Scalar> {
    let n = (v.len() / 2) as int;
    Seq::new(n as nat, |i: int| sadd(smul(v[i], x), smul(y, v[n + i])))
}

/// The halves of a list of generators, combined.
pub open spec fn folded_points(g: Seq<CompressedGroup>, x: Scalar, y: Scalar) -> Seq<
    CompressedGroup,
> {
    let n = (g.len() / 2) as int;
    Seq::new(n as nat, |i: int| msm(seq![x, y], seq![g[i], g[n + i]]))
}

/// A cross commitment: half of the vector on the other half's generators, the
/// cross product on `q`, and a blind on `h`.
pub open spec fn cross(
    a: Seq<Scalar>,
    b: Seq<Scalar>,
    g: Seq<CompressedGroup>,
    blind: Scalar,
    q: CompressedGroup,
    h: CompressedGroup,
) -> CompressedGroup {
    msm(a.push(dot(a, b)).push(blind), g.push(q).push(h))
}

/// One round.
pub open spec fn fold_once(
    s: Folding,
    q: CompressedGroup,
    h: CompressedGroup,
    blind_l: Scalar,
    blind_r: Scalar,
) -> Folding {
    let n = (s.a.len() / 2) as int;
    let l = cross(s.a.take(n), s.b.skip(n), s.g.skip(n), blind_l, q, h);
    let r = cross(s.a.skip(n), s.b.take(n), s.g.take(n), blind_r, q, h);
    let th = said(said(s.th, "L"@, l.encoding()), "R"@, r.encoding());
    let u = challenge(th, "u"@);
    let v = inverse_or_zero(u);
    Folding {
        a: folded(s.a, u, v),
        b: folded(s.b, v, u),
        g: folded_points(s.g, v, u),
        blind: sadd(
            sadd(s.blind, smul(smul(blind_l, u), u)),
            smul(smul(blind_r, v), v),
        ),
        th: drawn(th, "u"@),
        l: s.l.push(l),
        r: s.r.push(r),
    }
}

/// `k` rounds, each with its blinds.
pub open spec fn fold_rounds(
    s: Folding,
    q: CompressedGroup,
    h: CompressedGroup,
    v1: Seq<Scalar>,
    v2: Seq<Scalar>,
    k: nat,
) -> Folding
    decreases k,
{
    if k == 0 {
        s
    } else {
        fold_once(
            fold_rounds(s, q, h, v1, v2, (k - 1) as nat),
            q,
            h,
            v1[k - 1],
            v2[k - 1],
        )
    }
}

/// The cross commitments of a reduction.
pub struct BulletReductionProof {
    /// The left ones.
    pub l_vec: Vec<CompressedGroup>,
    /// The right ones.
    pub r_vec: Vec<CompressedGroup>,
}

/// What a reduction leaves: the cross commitments, and the last entries.
pub struct Reduced {
    /// The cross commitments.
    pub proof: BulletReductionProof,
    /// The last entry of the committed vector.
    pub a: Scalar,
    /// The last entry of the public vector.
    pub b: Scalar,
    /// The last generator.
    pub g: CompressedGroup,
    /// The last blind.
    pub blind: Scalar,
}

fn fold_scalars(v: &Vec<Scalar>, x: &Scalar, y: &Scalar) -> (r: Vec<Scalar>)
    ensures
        r@ == folded(v@, *x, *y),
{
    let len: usize = v.len();
    let n: usize = len / 2;
    let mut r: Vec<Scalar> = Vec::new();
    let mut i: usize = 0;
    while i < n
        invariant
            len == v@.len(),
            n == len / 2,
            i <= n,
            r@ == folded(v@, *x, *y).take(i as int),
        decreases n - i,
    {
        r.push(v[i].times(x).plus(&y.times(&v[n + i])));
        i += 1;
        assert(r@ =~= folded(v@, *x, *y).take(i as int));
    }
    assert(r@ =~= folded(v@, *x, *y));
    r
}

fn fold_points(g: &Vec<CompressedGroup>, x: &Scalar, y: &Scalar) -> (r: Vec<CompressedGroup>)
    requires
        all_valid(g@),
    ensures
        r@ == folded_points(g@, *x, *y),
        all_valid(r@),
{
    let len: usize = g.len();
    let n: usize = len / 2;
    let mut r: Vec<CompressedGroup> = Vec::new();
    let mut i: usize = 0;
    while i < n
        invariant
            len == g@.len(),
            n == len / 2,
            i <= n,
            all_valid(g@),
            all_valid(r@),
            r@ == folded_points(g@, *x, *y).take(i as int),
        decreases n - i,
    {
        let weights: Vec<Scalar> = vec![*x, *y];
        let points: Vec<CompressedGroup> = vec![g[i], g[n + i]];
        assert(weights@ =~= seq![*x, *y]);
        assert(points@ =~= seq![g@[i as int], g@[n + i]]);
        r.push(multiscalar_mul(&weights, &points));
        i += 1;
        assert(r@ =~= folded_points(g@, *x, *y).take(i as int));
    }
    assert(r@ =~= folded_points(g@, *x, *y));
    r
}

fn cross_commit(
    a: &Vec<Scalar>,
    b: &Vec<Scalar>,
    g: &Vec<CompressedGroup>,
    from: usize,
    n: usize,
    blind: &Scalar,
    q: &CompressedGroup,
    h: &CompressedGroup,
) -> (r: CompressedGroup)
    requires
        a@.len() == n,
        b@.len() == n,
        from + n <= g@.len(),
        all_valid(g@),
        q.valid(),
        h.valid(),
    ensures
        r == cross(a@, b@, g@.subrange(from as int, from + n), *blind, *q, *h),
        r.valid(),
{
    let c = dot_of(a, b);
    let mut scalars = part(a, 0, n);
    assert(scalars@ =~= a@);
    scalars.push(c);
    scalars.push(*blind);
    let mut points: Vec<CompressedGroup> = Vec::new();
    let len: usize = g.len();
    let mut i: usize = 0;
    while i < n
        invariant
            i <= n,
            len == g@.len(),
            from + n <= len,
            all_valid(g@),
            all_valid(points@),
            points@ == g@.subrange(from as int, from + i),
        decreases n - i,
    {
        points.push(g[from + i]);
        i += 1;
        assert(points@ =~= g@.subrange(from as int, from + i));
    }
    points.push(*q);
    points.push(*h);
    multiscalar_mul(&scalars, &points)
}

impl BulletReductionProof {
    /// Reduces a commitment to a vector, and its product with a public vector,
    /// to one entry of each.
    pub fn prove(
        t: &mut Transcript,
        q: &CompressedGroup,
        g: Vec<CompressedGroup>,
        h: &CompressedGroup,
        a: Vec<Scalar>,
        b: Vec<Scalar>,
        blind: &Scalar,
        v1: &Vec<Scalar>,
        v2: &Vec<Scalar>,
        rounds: usize,
    ) -> (r: Reduced)
        requires
            a@.len() == pow2(rounds as nat),
            b@.len() == a@.len(),
            g@.len() == a@.len(),
            v1@.len() >= rounds,
            v2@.len() >= rounds,
            all_valid(g@),
            q.valid(),
            h.valid(),
        ensures
            ({
                let start = Folding {
                    a: a@,
                    b: b@,
                    g: g@,
                    blind: *blind,
                    th: history(*old(t)),
                    l: Seq::empty(),
                    r: Seq::empty(),
                };
                let end = fold_rounds(start, *q, *h, v1@, v2@, rounds as nat);
                &&& r.proof.l_vec@ == end.l
                &&& r.proof.r_vec@ == end.r
                &&& r.a == end.a[0]
                &&& r.b == end.b[0]
                &&& r.g == end.g[0]
                &&& r.blind == end.blind
                &&& history(*final(t)) == end.th
            }),
            r.g.valid(),
    {
        let ghost start = Folding {
            a: a@,
            b: b@,
            g: g@,
            blind: *blind,
            th: history(*t),
            l: Seq::empty(),
            r: Seq::empty(),
        };
        let mut a = a;
        let mut b = b;
        let mut g = g;
        let mut blind = *blind;
        let mut l_vec: Vec<CompressedGroup> = Vec::new();
        let mut r_vec: Vec<CompressedGroup> = Vec::new();
        let mut k: usize = 0;
        while k < rounds
            invariant
                k <= rounds,
                a@.len() == pow2((rounds - k) as nat),
                b@.len() == a@.len(),
                g@.len() == a@.len(),
                v1@.len() >= rounds,
                v2@.len() >= rounds,
                all_valid(g@),
                q.valid(),
                h.valid(),
                fold_rounds(start, *q, *h, v1@, v2@, k as nat) == (Folding {
                    a: a@,
                    b: b@,
                    g: g@,
                    blind,
                    th: history(*t),
                    l: l_vec@,
                    r: r_vec@,
                }),
            decreases rounds - k,
        {
            proof {
                lemma_pow2_unfold((rounds - k) as nat);
            }
            let ghost s = fold_rounds(start, *q, *h, v1@, v2@, k as nat);
            let n: usize = a.len() / 2;
            let (a_l, a_r) = (part(&a, 0, n), part(&a, n, a.len()));
            let (b_l, b_r) = (part(&b, 0, n), part(&b, n, b.len()));
            assert(a_l@ =~= s.a.take(n as int) && a_r@ =~= s.a.skip(n as int));
            assert(b_l@ =~= s.b.take(n as int) && b_r@ =~= s.b.skip(n as int));
            assert(g@.subrange(n as int, n + n) =~= s.g.skip(n as int));
            assert(g@.subrange(0, 0 + n) =~= s.g.take(n as int));
            let l = cross_commit(&a_l, &b_r, &g, n, n, &v1[k], q, h);
            let r = cross_commit(&a_r, &b_l, &g, 0, n, &v2[k], q, h);
            append_point(t, "L", &l);
            append_point(t, "R", &r);
            let u = challenge_scalar(t, "u");
            let v = invert_or_zero(&u);
            a = fold_scalars(&a, &u, &v);
            b = fold_scalars(&b, &v, &u);
            g = fold_points(&g, &v, &u);
            blind = blind.plus(&v1[k].times(&u).times(&u)).plus(&v2[k].times(&v).times(&v));
            l_vec.push(l);
            r_vec.push(r);
            k += 1;
        }
        proof {
            lemma_pow2_pos(0);
            vstd::arithmetic::power2::lemma2_to64();
        }
        Reduced {
            proof: BulletReductionProof { l_vec, r_vec },
            a: a[0],
            b: b[0],
            g: g[0],
            blind,
        }
    }
}

/// The challenges that the cross commitments yield, and the transcript after
/// them.
pub open spec fn replayed(
    th: History,
    l: Seq<CompressedGroup>,
    r: Seq<CompressedGroup>,
    k: nat,
) -> (Seq<Scalar>, History)
    decreases k,
{
    if k == 0 {
        (Seq::empty(), th)
    } else {
        let (us, h) = replayed(th, l, r, (k - 1) as nat);
        let h2 = said(said(h, "L"@, l[k - 1].encoding()), "R"@, r[k - 1].encoding());
        (us.push(challenge(h2, "u"@)), drawn(h2, "u"@))
    }
}

/// The weights with which the first generators enter the last one.
pub open spec fn fold_weights(us: Seq<Scalar>) -> Seq<Scalar>
    decreases us.len(),
{
    if us.len() == 0 {
        seq![sone()]
    } else {
        let t = fold_weights(us.drop_last());
        Seq::new(
            2 * t.len(),
            |i: int|
                smul(
                    t[i / 2],
                    if i % 2 == 1 {
                        us.last()
                    } else {
                        inverse_or_zero(us.last())
                    },
                ),
        )
    }
}

/// The squares of a list.
pub open spec fn squares(us: Seq<Scalar>) -> Seq<Scalar> {
    us.map_values(|u: Scalar| smul(u, u))
}

/// The squares of the inverses of a list.
pub open spec fn inverse_squares(us: Seq<Scalar>) -> Seq<Scalar> {
    us.map_values(|u: Scalar| smul(inverse_or_zero(u), inverse_or_zero(u)))
}

/// What a verifier finds at the end of a reduction.
pub struct Replayed {
    /// The last generator.
    pub g: CompressedGroup,
    /// The last commitment.
    pub gamma: CompressedGroup,
    /// The last entry of the public vector.
    pub a: Scalar,
}

fn weights_of(us: &Vec<Scalar>) -> (r: Vec<Scalar>)
    requires
        pow2(us@.len()) <= usize::MAX,
    ensures
        r@ == fold_weights(us@),
        r@.len() == pow2(us@.len()),
{
    let mut v: Vec<Scalar> = vec![Scalar::one()];
    assert(v@ =~= seq![sone()]);
    assert(us@.take(0) =~= Seq::<Scalar>::empty());
    let mut j: usize = 0;
    while j < us.len()
        invariant
            j <= us@.len(),
            v@ == fold_weights(us@.take(j as int)),
        decreases us@.len() - j,
    {
        let inv = invert_or_zero(&us[j]);
        let mut w: Vec<Scalar> = Vec::new();
        let ghost next = fold_weights(us@.take(j + 1));
        assert(us@.take(j + 1).drop_last() =~= us@.take(j as int));
        let mut i: usize = 0;
        while i < v.len()
            invariant
                i <= v@.len(),
                j < us@.len(),
                inv == inverse_or_zero(us@[j as int]),
                v@ == fold_weights(us@.take(j as int)),
                next == fold_weights(us@.take(j + 1)),
                us@.take(j + 1).drop_last() == us@.take(j as int),
                next.len() == 2 * v@.len(),
                w@ == next.take(2 * i),
            decreases v@.len() - i,
        {
            let lo = v[i].times(&inv);
            let hi = v[i].times(&us[j]);
            w.push(lo);
            w.push(hi);
            assert((2 * i) / 2 == i && (2 * i + 1) / 2 == i);
            assert(us@.take(j + 1).last() == us@[j as int]);
            assert(next[2 * i] == lo);
            assert(next[2 * i + 1] == hi);
            i += 1;
            assert(w@ =~= next.take(2 * i));
        }
        assert(next.take(2 * i) =~= next);
        v = w;
        j += 1;
    }
    proof {
        assert(us@.take(j as int) =~= us@);
        lemma_weights_len(us@);
    }
    v
}

/// There is one weight for each of the first generators.
pub proof fn lemma_weights_len(us: Seq<Scalar>)
    ensures
        fold_weights(us).len() == pow2(us.len()),
    decreases us.len(),
{
    if us.len() == 0 {
        vstd::arithmetic::power2::lemma2_to64();
    } else {
        lemma_weights_len(us.drop_last());
        lemma_pow2_unfold(us.len());
    }
}

/// Whether the cross commitments are as many as `n` entries need.
pub open spec fn replay_sized(l: Seq<CompressedGroup>, r: Seq<CompressedGroup>, n: nat) -> bool {
    &&& l.len() == r.len()
    &&& l.len() < 32
    &&& n == pow2(l.len())
}

/// Whether the cross commitments are as many as `n` entries need, and are
/// group elements.
pub open spec fn replayable(l: Seq<CompressedGroup>, r: Seq<CompressedGroup>, n: nat) -> bool {
    &&& replay_sized(l, r, n)
    &&& all_valid(l)
    &&& all_valid(r)
}

/// What a verifier computes from the cross commitments.
pub open spec fn replay_result(
    us: Seq<Scalar>,
    l: Seq<CompressedGroup>,
    r: Seq<CompressedGroup>,
    a: Seq<Scalar>,
    gamma: CompressedGroup,
    g: Seq<CompressedGroup>,
) -> Replayed {
    Replayed {
        g: msm(fold_weights(us), g),
        gamma: msm(
            (squares(us) + inverse_squares(us)).push(sone()),
            (l + r).push(gamma),
        ),
        a: dot(a, fold_weights(us)),
    }
}

impl BulletReductionProof {
    /// Follows a reduction of `a.len()` entries. The transcript takes in the
    /// cross commitments where their number fits.
    pub fn verify(
        &self,
        a: &Vec<Scalar>,
        t: &mut Transcript,
        gamma: &CompressedGroup,
        g: &Vec<CompressedGroup>,
    ) -> (r: Option<Replayed>)
        requires
            g@.len() == a@.len(),
            all_valid(g@),
            gamma.valid(),
        ensures
            r is Some <==> replayable(self.l_vec@, self.r_vec@, a@.len()),
            history(*final(t)) == if replay_sized(self.l_vec@, self.r_vec@, a@.len()) {
                replayed(history(*old(t)), self.l_vec@, self.r_vec@, self.l_vec@.len()).1
            } else {
                history(*old(t))
            },
            r matches Some(x) ==> {
                let (us, th) = replayed(
                    history(*old(t)),
                    self.l_vec@,
                    self.r_vec@,
                    self.l_vec@.len(),
                );
                &&& x == replay_result(us, self.l_vec@, self.r_vec@, a@, *gamma, g@)
                &&& x.g.valid()
                &&& x.gamma.valid()
            },
    {
        let k: usize = self.l_vec.len();
        if k != self.r_vec.len() || k >= 32 {
            return None;
        }
        proof {
            vstd::arithmetic::power2::lemma2_to64();
            if k < 31 {
                vstd::arithmetic::power2::lemma_pow2_strictly_increases(k as nat, 31);
            }
        }
        if a.len() != pow_2(k) {
            return None;
        }
        let ghost th = history(*t);
        let mut us: Vec<Scalar> = Vec::new();
        let mut sq: Vec<Scalar> = Vec::new();
        let mut inv_sq: Vec<Scalar> = Vec::new();
        let mut i: usize = 0;
        while i < k
            invariant
                i <= k,
                k == self.l_vec@.len(),
                k == self.r_vec@.len(),
                us@.len() == i,
                (us@, history(*t)) == replayed(th, self.l_vec@, self.r_vec@, i as nat),
                sq@ == squares(us@),
                inv_sq@ == inverse_squares(us@),
            decreases k - i,
        {
            append_point(t, "L", &self.l_vec[i]);
            append_point(t, "R", &self.r_vec[i]);
            let u = challenge_scalar(t, "u");
            let v = invert_or_zero(&u);
            us.push(u);
            sq.push(u.times(&u));
            inv_sq.push(v.times(&v));
            assert(sq@ =~= squares(us@));
            assert(inv_sq@ =~= inverse_squares(us@));
            i += 1;
        }
        let w = weights_of(&us);
        let g_hat = multiscalar_mul(&w, g);
        let a_hat = dot_of(a, &w);
        let mut scalars: Vec<Scalar> = crate::vectors::concat(&sq, &inv_sq);
        scalars.push(Scalar::one());
        let mut points: Vec<CompressedGroup> = Vec::new();
        points.extend_from_slice(self.l_vec.as_slice());
        points.extend_from_slice(self.r_vec.as_slice());
        assert(points@ =~= self.l_vec@ + self.r_vec@);
        points.push(*gamma);
        let ghost all = (self.l_vec@ + self.r_vec@).push(*gamma);
        match try_multiscalar_mul(&scalars, &points) {
            Some(gamma_hat) => {
                proof {
                    assert forall|j: int| 0 <= j < k implies (#[trigger] self.l_vec@[j]).valid() by {
                        assert(all[j].valid());
                    }
                    assert forall|j: int| 0 <= j < k implies (#[trigger] self.r_vec@[j]).valid() by {
                        assert(all[k + j].valid());
                    }
                }
                Some(Replayed { g: g_hat, gamma: gamma_hat, a: a_hat })
            },
            None => {
                proof {
                    if all_valid(self.l_vec@) && all_valid(self.r_vec@) {
                        assert(all_valid(all));
                    }
                }
                None
            },
        }
    }
}

} // verus!
