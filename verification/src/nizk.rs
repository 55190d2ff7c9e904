//! Proofs about committed values.
use crate::bullet::{
    fold_rounds, replay_result, replay_sized, replayable, replayed, BulletReductionProof, Folding,
};
use crate::commitments::{commitment, first_points, Gens};
use crate::dense_mlpoly::DotProductProofGens;
use crate::errors::ProofVerifyError;
use crate::group::{all_valid, msm, multiscalar_mul, try_multiscalar_mul, CompressedGroup};
use crate::math::{lemma_log2_small, log2_up, log_2};
use crate::random::RandomTape;
use crate::scalar::{sadd, smul, sone, Scalar};
use crate::transcript::{
    append_point, append_protocol_name, append_scalars, challenge, challenge_scalar, challenges,
    drawn, history, named, said, said_vector, History,
};
use crate::vectors::copy_of;
use merlin::Transcript;
use vstd::arithmetic::power2::pow2;
use vstd::prelude::*;
use vstd::string::StringSliceAdditionalSpecFns;

verus! {

/// A proof that a committed vector has a committed product with a public one.
pub struct DotProductProofLog {
    /// The folding.
    pub bullet: BulletReductionProof,
    /// The commitment to the mask.
    pub delta: CompressedGroup,
    /// The commitment to the masked blind.
    pub beta: CompressedGroup,
    /// The masked value.
    pub z1: Scalar,
    /// The masked blind.
    pub z2: Scalar,
}

/// What a `DotProductProofLog` holds.
#[verifier::ext_equal]
pub struct DotLog {
    /// The left cross commitments.
    pub l: Seq<CompressedGroup>,
    /// The right cross commitments.
    pub r: Seq<CompressedGroup>,
    /// The commitment to the mask, on the last generator.
    pub delta: CompressedGroup,
    /// The commitment to the mask, on the generator of the product.
    pub beta: CompressedGroup,
    /// The masked product.
    pub z1: Scalar,
    /// The masked blind.
    pub z2: Scalar,
}

impl View for DotProductProofLog {
    type V = DotLog;

    open spec fn view(&self) -> DotLog {
        DotLog {
            l: self.bullet.l_vec@,
            r: self.bullet.r_vec@,
            delta: self.delta,
            beta: self.beta,
            z1: self.z1,
            z2: self.z2,
        }
    }
}

/// What a prover of an inner product ends with.
#[verifier::ext_equal]
pub struct DotOutcome {
    /// The proof.
    pub proof: DotLog,
    /// The commitment to the vector.
    pub cx: CompressedGroup,
    /// The commitment to the product.
    pub cy: CompressedGroup,
    /// The transcript.
    pub th: History,
    /// The prover's tape.
    pub rh: History,
}

/// The combination of one point.
pub open spec fn scaled(p: CompressedGroup, x: Scalar) -> CompressedGroup {
    msm(seq![x], seq![p])
}

/// The combination of two points.
pub open spec fn pair_commitment(
    x: Scalar,
    y: Scalar,
    p: CompressedGroup,
    q: CompressedGroup,
) -> CompressedGroup {
    msm(seq![x, y], seq![p, q])
}

/// The prover of an inner product: `x` is committed under the blind `bx`, its
/// product `y` with the public `a` under `by`.
#[verifier::opaque]
pub open spec fn dot_prove(
    gn: Gens,
    g1: Gens,
    x: Seq<Scalar>,
    bx: Scalar,
    a: Seq<Scalar>,
    y: Scalar,
    by: Scalar,
    th: History,
    rh: History,
) -> DotOutcome {
    let lg = log2_up(x.len());
    let d = challenge(rh, "d"@);
    let rh1 = drawn(rh, "d"@);
    let r_delta = challenge(rh1, "r_delta"@);
    let rh2 = drawn(rh1, "r_delta"@);
    let r_beta = challenge(rh2, "r_delta"@);
    let rh3 = drawn(rh2, "r_delta"@);
    let (v1, rh4) = challenges(rh3, "blinds_vec_1"@, 2 * lg);
    let (v2, rh5) = challenges(rh4, "blinds_vec_2"@, 2 * lg);
    let cx = commitment(x, bx, gn);
    let cy = commitment(seq![y], by, g1);
    let (r, th1) = dot_opening(a, cx, cy, th);
    let q = scaled(g1.g[0], r);
    let start = Folding {
        a: x,
        b: a,
        g: gn.g.take(x.len() as int),
        blind: sadd(bx, smul(r, by)),
        th: th1,
        l: Seq::empty(),
        r: Seq::empty(),
    };
    let end = fold_rounds(start, q, gn.h, v1, v2, lg);
    let delta = pair_commitment(d, r_delta, end.g[0], g1.h);
    let beta = pair_commitment(d, r_beta, q, g1.h);
    let th2 = said(said(end.th, "delta"@, delta.encoding()), "beta"@, beta.encoding());
    let c = challenge(th2, "c"@);
    DotOutcome {
        proof: DotLog {
            l: end.l,
            r: end.r,
            delta,
            beta,
            z1: sadd(d, smul(c, smul(end.a[0], end.b[0]))),
            z2: sadd(smul(end.b[0], sadd(smul(c, end.blind), r_beta)), r_delta),
        },
        cx,
        cy,
        th: drawn(th2, "c"@),
        rh: rh5,
    }
}

/// The challenge that binds the two commitments and the public vector, and
/// the transcript after it.
pub open spec fn dot_opening(
    a: Seq<Scalar>,
    cx: CompressedGroup,
    cy: CompressedGroup,
    th: History,
) -> (Scalar, History) {
    let h = said_vector(
        said(
            said(named(th, "dot product proof (log)"), "Cx"@, cx.encoding()),
            "Cy"@,
            cy.encoding(),
        ),
        "a"@,
        a,
    );
    (challenge(h, "r"@), drawn(h, "r"@))
}

/// What a verifier of an inner product finds: whether the proof holds, and
/// the transcript after it. A commitment or a cross commitment that is no group
/// element, or a wrong number of cross commitments, ends the check early.
#[verifier::opaque]
pub open spec fn dot_verify(
    gn: Gens,
    g1: Gens,
    a: Seq<Scalar>,
    cx: CompressedGroup,
    cy: CompressedGroup,
    p: DotLog,
    th: History,
) -> (bool, History) {
    let (r, th1) = dot_opening(a, cx, cy, th);
    let q = scaled(g1.g[0], r);
    let gamma = pair_commitment(sone(), r, cx, cy);
    let (us, th2) = replayed(th1, p.l, p.r, p.l.len());
    let end = replay_result(us, p.l, p.r, a, gamma, gn.g.take(a.len() as int));
    let th3 = said(said(th2, "delta"@, p.delta.encoding()), "beta"@, p.beta.encoding());
    let c = challenge(th3, "c"@);
    let left = msm(
        seq![smul(c, end.a), end.a, sone()],
        seq![end.gamma, p.beta, p.delta],
    );
    let right = msm(seq![p.z1, smul(end.a, p.z1), p.z2], seq![end.g, q, g1.h]);
    let holds = cx.valid() && cy.valid() && replayable(p.l, p.r, a.len()) && p.delta.valid()
        && p.beta.valid() && left == right;
    let end_th = if !cx.valid() || !cy.valid() || !replay_sized(p.l, p.r, a.len()) {
        th1
    } else if !replayable(p.l, p.r, a.len()) {
        th2
    } else {
        drawn(th3, "c"@)
    };
    (holds, end_th)
}

proof fn lemma_name()
    ensures
        "dot product proof (log)".spec_bytes().len() <= u32::MAX,
{
    reveal_strlit("dot product proof (log)");
    vstd::utf8::is_ascii_chars_encode_utf8("dot product proof (log)"@);
}

/// Combines one point.
pub(crate) fn scale_point(p: &CompressedGroup, x: &Scalar) -> (r: CompressedGroup)
    requires
        p.valid(),
    ensures
        r == scaled(*p, *x),
        r.valid(),
{
    let scalars: Vec<Scalar> = vec![*x];
    let points: Vec<CompressedGroup> = vec![*p];
    assert(scalars@ =~= seq![*x]);
    assert(points@ =~= seq![*p]);
    multiscalar_mul(&scalars, &points)
}

/// Combines two points.
pub(crate) fn combine_two(
    x: &Scalar,
    y: &Scalar,
    p: &CompressedGroup,
    q: &CompressedGroup,
) -> (r: Option<CompressedGroup>)
    ensures
        r is Some <==> p.valid() && q.valid(),
        r matches Some(c) ==> c == pair_commitment(*x, *y, *p, *q) && c.valid(),
{
    let scalars: Vec<Scalar> = vec![*x, *y];
    let points: Vec<CompressedGroup> = vec![*p, *q];
    assert(scalars@ =~= seq![*x, *y]);
    assert(points@ =~= seq![*p, *q]);
    let r = try_multiscalar_mul(&scalars, &points);
    proof {
        let s = seq![*p, *q];
        assert(s[0] == *p && s[1] == *q);
        if all_valid(s) {
            assert(s[0].valid() && s[1].valid());
        }
    }
    r
}

fn combine_three(
    scalars: Vec<Scalar>,
    p: &CompressedGroup,
    q: &CompressedGroup,
    s: &CompressedGroup,
) -> (r: Option<CompressedGroup>)
    requires
        scalars@.len() == 3,
    ensures
        r is Some <==> p.valid() && q.valid() && s.valid(),
        r matches Some(c) ==> c == msm(scalars@, seq![*p, *q, *s]) && c.valid(),
{
    let points: Vec<CompressedGroup> = vec![*p, *q, *s];
    assert(points@ =~= seq![*p, *q, *s]);
    let r = try_multiscalar_mul(&scalars, &points);
    proof {
        let w = seq![*p, *q, *s];
        assert(w[0] == *p && w[1] == *q && w[2] == *s);
        if all_valid(w) {
            assert(w[0].valid() && w[1].valid() && w[2].valid());
        }
    }
    r
}

impl DotProductProofLog {
    /// Proves that `x`, committed under `blind_x`, has with `a` the product
    /// `y`, committed under `blind_y`.
    pub fn prove(
        gens: &DotProductProofGens,
        t: &mut Transcript,
        tape: &mut RandomTape,
        x: &Vec<Scalar>,
        blind_x: &Scalar,
        a: &Vec<Scalar>,
        y: &Scalar,
        blind_y: &Scalar,
    ) -> (r: (DotProductProofLog, CompressedGroup, CompressedGroup))
        requires
            gens.wf(),
            x@.len() == pow2(log2_up(x@.len())),
            a@.len() == x@.len(),
            x@.len() <= gens.n,
        ensures
            (DotOutcome {
                proof: r.0@,
                cx: r.1,
                cy: r.2,
                th: history(*final(t)),
                rh: final(tape)@,
            }) == dot_prove(
                gens.gens_n@,
                gens.gens_1@,
                x@,
                *blind_x,
                a@,
                *y,
                *blind_y,
                history(*old(t)),
                old(tape)@,
            ),
            r.1.valid(),
            r.2.valid(),
            r.2 == commitment(seq![*y], *blind_y, gens.gens_1@),
    {
        proof {
            reveal(dot_prove);
            lemma_name();
            vstd::arithmetic::power2::lemma_pow2_pos(log2_up(x@.len()));
        }
        append_protocol_name(t, "dot product proof (log)");
        let n: usize = x.len();
        proof {
            lemma_log2_small(n);
        }
        let lg = log_2(n);
        let d = tape.random_scalar("d");
        let r_delta = tape.random_scalar("r_delta");
        let r_beta = tape.random_scalar("r_delta");
        let v1 = tape.random_vector("blinds_vec_1", 2 * lg);
        let v2 = tape.random_vector("blinds_vec_2", 2 * lg);
        let cx = gens.gens_n.commit(x, blind_x);
        append_point(t, "Cx", &cx);
        let cy = gens.gens_1.commit_one(y, blind_y);
        append_point(t, "Cy", &cy);
        append_scalars(t, "a", a);
        let r = challenge_scalar(t, "r");
        let q = scale_point(&gens.gens_1.g[0], &r);
        let blind = blind_x.plus(&r.times(blind_y));
        let g = first_points(&gens.gens_n.g, x.len());
        let red = BulletReductionProof::prove(
            t,
            &q,
            g,
            &gens.gens_n.h,
            copy_of(x),
            copy_of(a),
            &blind,
            &v1,
            &v2,
            lg,
        );
        let y_hat = red.a.times(&red.b);
        let delta = match combine_two(&d, &r_delta, &red.g, &gens.gens_1.h) {
            Some(p) => p,
            None => cx,
        };
        append_point(t, "delta", &delta);
        let beta = match combine_two(&d, &r_beta, &q, &gens.gens_1.h) {
            Some(p) => p,
            None => cx,
        };
        append_point(t, "beta", &beta);
        let c = challenge_scalar(t, "c");
        let z1 = d.plus(&c.times(&y_hat));
        let z2 = red.b.times(&c.times(&red.blind).plus(&r_beta)).plus(&r_delta);
        (DotProductProofLog { bullet: red.proof, delta, beta, z1, z2 }, cx, cy)
    }

    /// Checks that what `cx` commits to has with `a` the product that `cy`
    /// commits to.
    pub fn verify(
        &self,
        gens: &DotProductProofGens,
        t: &mut Transcript,
        a: &Vec<Scalar>,
        cx: &CompressedGroup,
        cy: &CompressedGroup,
    ) -> (r: Result<(), ProofVerifyError>)
        requires
            gens.wf(),
            a@.len() <= gens.n,
        ensures
            r matches Err(e) ==> e == ProofVerifyError::InternalError,
            ({
                let (holds, th) = dot_verify(
                    gens.gens_n@,
                    gens.gens_1@,
                    a@,
                    *cx,
                    *cy,
                    self@,
                    history(*old(t)),
                );
                &&& r is Ok <==> holds
                &&& history(*final(t)) == th
            }),
    {
        proof {
            reveal(dot_verify);
            lemma_name();
        }
        append_protocol_name(t, "dot product proof (log)");
        append_point(t, "Cx", cx);
        append_point(t, "Cy", cy);
        append_scalars(t, "a", a);
        let r = challenge_scalar(t, "r");
        let q = scale_point(&gens.gens_1.g[0], &r);
        let gamma = match combine_two(&Scalar::one(), &r, cx, cy) {
            Some(p) => p,
            None => return Err(ProofVerifyError::InternalError),
        };
        let g = first_points(&gens.gens_n.g, a.len());
        let end = match self.bullet.verify(a, t, &gamma, &g) {
            Some(e) => e,
            None => return Err(ProofVerifyError::InternalError),
        };
        append_point(t, "delta", &self.delta);
        append_point(t, "beta", &self.beta);
        let c = challenge_scalar(t, "c");
        let weights: Vec<Scalar> = vec![c.times(&end.a), end.a, Scalar::one()];
        assert(weights@ =~= seq![smul(c, end.a), end.a, sone()]);
        let left = match combine_three(weights, &end.gamma, &self.beta, &self.delta) {
            Some(p) => p,
            None => return Err(ProofVerifyError::InternalError),
        };
        let weights: Vec<Scalar> = vec![self.z1, end.a.times(&self.z1), self.z2];
        assert(weights@ =~= seq![self.z1, smul(end.a, self.z1), self.z2]);
        let right = match combine_three(weights, &end.g, &q, &gens.gens_1.h) {
            Some(p) => p,
            None => return Err(ProofVerifyError::InternalError),
        };
        if left.equals(&right) {
            Ok(())
        } else {
            Err(ProofVerifyError::InternalError)
        }
    }
}

} // verus!
