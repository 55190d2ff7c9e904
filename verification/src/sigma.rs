//! Proofs of knowledge, equality, products and inner products of committed
//! values.
use crate::commitments::{commitment, Gens, MultiCommitGens};
use crate::group::CompressedGroup;
use crate::nizk::{combine_two, pair_commitment, scale_point, scaled};
use crate::random::RandomTape;
use crate::scalar::{sadd, smul, ssub, Scalar};
use crate::transcript::{
    append_point, append_protocol_name, append_scalars, challenge, challenge_scalar, challenges,
    drawn, history, named, said, said_vector, History,
};
use crate::vectors::{dot, dot_of};
use merlin::Transcript;
use vstd::prelude::*;
use vstd::string::StringSliceAdditionalSpecFns;

verus! {

/// A proof that one knows what a commitment hides.
#[derive(Clone, Copy)]
pub struct KnowledgeProof {
    /// The commitment to the masks.
    pub alpha: CompressedGroup,
    /// The masked value.
    pub z1: Scalar,
    /// The masked blind.
    pub z2: Scalar,
}

/// A proof that two commitments hide the same.
#[derive(Clone, Copy)]
pub struct EqualityProof {
    /// The commitment to the mask.
    pub alpha: CompressedGroup,
    /// The masked difference of the blinds.
    pub z: Scalar,
}

/// A proof that one commitment hides the product of what two others hide.
#[derive(Clone, Copy)]
pub struct ProductProof {
    /// The commitment to the masks of the first factor.
    pub alpha: CompressedGroup,
    /// The commitment to the masks of the second factor.
    pub beta: CompressedGroup,
    /// The commitment to the masks of the product.
    pub delta: CompressedGroup,
    /// The masked first factor.
    pub z1: Scalar,
    /// Its masked blind.
    pub z2: Scalar,
    /// The masked second factor.
    pub z3: Scalar,
    /// Its masked blind.
    pub z4: Scalar,
    /// The masked blind of the product.
    pub z5: Scalar,
}

/// The proof of knowledge of `x` under the blind `r`, the commitment, the
/// transcript and the tape.
pub open spec fn knowledge_prove(g: Gens, x: Scalar, r: Scalar, th: History, rh: History) -> (
    KnowledgeProof,
    CompressedGroup,
    History,
    History,
) {
    let t1 = challenge(rh, "t1"@);
    let rh1 = drawn(rh, "t1"@);
    let t2 = challenge(rh1, "t2"@);
    let c_x = commitment(seq![x], r, g);
    let alpha = commitment(seq![t1], t2, g);
    let h = said(
        said(named(th, "knowledge proof"), "C"@, c_x.encoding()),
        "alpha"@,
        alpha.encoding(),
    );
    let c = challenge(h, "c"@);
    (
        KnowledgeProof { alpha, z1: sadd(smul(x, c), t1), z2: sadd(smul(r, c), t2) },
        c_x,
        drawn(h, "c"@),
        drawn(rh1, "t2"@),
    )
}

/// The proof that `v1` under `s1` and `v2` under `s2` are the same.
pub open spec fn equality_prove(
    g: Gens,
    v1: Scalar,
    s1: Scalar,
    v2: Scalar,
    s2: Scalar,
    th: History,
    rh: History,
) -> (EqualityProof, History, History) {
    let r = challenge(rh, "r"@);
    let c1 = commitment(seq![v1], s1, g);
    let c2 = commitment(seq![v2], s2, g);
    let alpha = scaled(g.h, r);
    let h = said(
        said(said(named(th, "equality proof"), "C1"@, c1.encoding()), "C2"@, c2.encoding()),
        "alpha"@,
        alpha.encoding(),
    );
    let c = challenge(h, "c"@);
    (
        EqualityProof { alpha, z: sadd(smul(c, ssub(s1, s2)), r) },
        drawn(h, "c"@),
        drawn(rh, "r"@),
    )
}

/// What the proof of a product ends with.
#[verifier::ext_equal]
pub struct ProductOutcome {
    /// The proof.
    pub proof: ProductProof,
    /// The commitment to the first factor.
    pub x: CompressedGroup,
    /// The commitment to the second factor.
    pub y: CompressedGroup,
    /// The commitment to the product.
    pub z: CompressedGroup,
    /// The transcript.
    pub th: History,
    /// The tape.
    pub rh: History,
}

/// The proof that `z` under `rz` is the product of `x` under `rx` and `y`
/// under `ry`.
pub open spec fn product_prove(
    g: Gens,
    x: Scalar,
    rx: Scalar,
    y: Scalar,
    ry: Scalar,
    z: Scalar,
    rz: Scalar,
    th: History,
    rh: History,
) -> ProductOutcome {
    let b1 = challenge(rh, "b1"@);
    let rh1 = drawn(rh, "b1"@);
    let b2 = challenge(rh1, "b2"@);
    let rh2 = drawn(rh1, "b2"@);
    let b3 = challenge(rh2, "b3"@);
    let rh3 = drawn(rh2, "b3"@);
    let b4 = challenge(rh3, "b4"@);
    let rh4 = drawn(rh3, "b4"@);
    let b5 = challenge(rh4, "b5"@);
    let cx = commitment(seq![x], rx, g);
    let cy = commitment(seq![y], ry, g);
    let cz = commitment(seq![z], rz, g);
    let alpha = commitment(seq![b1], b2, g);
    let beta = commitment(seq![b3], b4, g);
    let delta = pair_commitment(b3, b5, cx, g.h);
    let h1 = said(
        said(said(named(th, "product proof"), "X"@, cx.encoding()), "Y"@, cy.encoding()),
        "Z"@,
        cz.encoding(),
    );
    let h2 = said(
        said(said(h1, "alpha"@, alpha.encoding()), "beta"@, beta.encoding()),
        "delta"@,
        delta.encoding(),
    );
    let c = challenge(h2, "c"@);
    ProductOutcome {
        proof: ProductProof {
            alpha,
            beta,
            delta,
            z1: sadd(b1, smul(c, x)),
            z2: sadd(b2, smul(c, rx)),
            z3: sadd(b3, smul(c, y)),
            z4: sadd(b4, smul(c, ry)),
            z5: sadd(b5, smul(c, ssub(rz, smul(rx, y)))),
        },
        x: cx,
        y: cy,
        z: cz,
        th: drawn(h2, "c"@),
        rh: drawn(rh4, "b5"@),
    }
}

/// A proof that a committed vector has a committed product with a public one,
/// of the size of the vector.
pub struct DotProductProof {
    /// The commitment to the mask.
    pub delta: CompressedGroup,
    /// The commitment to the product with the mask.
    pub beta: CompressedGroup,
    /// The masked vector.
    pub z: Vec<Scalar>,
    /// The masked blind of the vector.
    pub z_delta: Scalar,
    /// The masked blind of the product.
    pub z_beta: Scalar,
}

/// What a `DotProductProof` holds.
#[verifier::ext_equal]
pub struct DotLinear {
    /// The commitment to the masks.
    pub delta: CompressedGroup,
    /// The commitment to the product of the masks.
    pub beta: CompressedGroup,
    /// The masked vector.
    pub z: Seq<Scalar>,
    /// The masked blind of the vector.
    pub z_delta: Scalar,
    /// The masked blind of the product.
    pub z_beta: Scalar,
}

impl View for DotProductProof {
    type V = DotLinear;

    open spec fn view(&self) -> DotLinear {
        DotLinear {
            delta: self.delta,
            beta: self.beta,
            z: self.z@,
            z_delta: self.z_delta,
            z_beta: self.z_beta,
        }
    }
}

/// A vector times a scalar plus another vector.
pub open spec fn affine(c: Scalar, x: Seq<Scalar>, d: Seq<Scalar>) -> Seq<Scalar> {
    Seq::new(x.len(), |i: int| sadd(smul(c, x[i]), d[i]))
}

/// The proof that `x` under `bx` has with `a` the product `y` under `by`.
#[verifier::opaque]
pub open spec fn linear_prove(
    g1: Gens,
    gn: Gens,
    x: Seq<Scalar>,
    bx: Scalar,
    a: Seq<Scalar>,
    y: Scalar,
    by: Scalar,
    th: History,
    rh: History,
) -> (DotLinear, History, History) {
    let (d, rh1) = challenges(rh, "d_vec"@, x.len());
    let r_delta = challenge(rh1, "r_delta"@);
    let rh2 = drawn(rh1, "r_delta"@);
    let r_beta = challenge(rh2, "r_beta"@);
    let cx = commitment(x, bx, gn);
    let cy = commitment(seq![y], by, g1);
    let delta = commitment(d, r_delta, gn);
    let beta = commitment(seq![dot(a, d)], r_beta, g1);
    let h1 = said_vector(
        said(said(named(th, "dot product proof"), "Cx"@, cx.encoding()), "Cy"@, cy.encoding()),
        "a"@,
        a,
    );
    let h2 = said(said(h1, "delta"@, delta.encoding()), "beta"@, beta.encoding());
    let c = challenge(h2, "c"@);
    (
        DotLinear {
            delta,
            beta,
            z: affine(c, x, d),
            z_delta: sadd(smul(c, bx), r_delta),
            z_beta: sadd(smul(c, by), r_beta),
        },
        drawn(h2, "c"@),
        drawn(rh2, "r_beta"@),
    )
}

proof fn lemma_names()
    ensures
        "knowledge proof".spec_bytes().len() <= u32::MAX,
        "equality proof".spec_bytes().len() <= u32::MAX,
        "product proof".spec_bytes().len() <= u32::MAX,
        "dot product proof".spec_bytes().len() <= u32::MAX,
{
    reveal_strlit("knowledge proof");
    vstd::utf8::is_ascii_chars_encode_utf8("knowledge proof"@);
    reveal_strlit("equality proof");
    vstd::utf8::is_ascii_chars_encode_utf8("equality proof"@);
    reveal_strlit("product proof");
    vstd::utf8::is_ascii_chars_encode_utf8("product proof"@);
    reveal_strlit("dot product proof");
    vstd::utf8::is_ascii_chars_encode_utf8("dot product proof"@);
}

impl KnowledgeProof {
    /// Proves knowledge of `x`, committed under `r`.
    pub fn prove(
        gens: &MultiCommitGens,
        t: &mut Transcript,
        tape: &mut RandomTape,
        x: &Scalar,
        r: &Scalar,
    ) -> (res: (KnowledgeProof, CompressedGroup))
        requires
            gens.wf(),
            gens.n >= 1,
        ensures
            (res.0, res.1, history(*final(t)), final(tape)@) == knowledge_prove(
                gens@,
                *x,
                *r,
                history(*old(t)),
                old(tape)@,
            ),
            res.1.valid(),
    {
        proof {
            lemma_names();
        }
        append_protocol_name(t, "knowledge proof");
        let t1 = tape.random_scalar("t1");
        let t2 = tape.random_scalar("t2");
        let c_x = gens.commit_one(x, r);
        append_point(t, "C", &c_x);
        let alpha = gens.commit_one(&t1, &t2);
        append_point(t, "alpha", &alpha);
        let c = challenge_scalar(t, "c");
        let z1 = x.times(&c).plus(&t1);
        let z2 = r.times(&c).plus(&t2);
        (KnowledgeProof { alpha, z1, z2 }, c_x)
    }
}

impl EqualityProof {
    /// Proves that `v1`, committed under `s1`, and `v2`, committed under `s2`,
    /// are the same.
    pub fn prove(
        gens: &MultiCommitGens,
        t: &mut Transcript,
        tape: &mut RandomTape,
        v1: &Scalar,
        s1: &Scalar,
        v2: &Scalar,
        s2: &Scalar,
    ) -> (res: EqualityProof)
        requires
            gens.wf(),
            gens.n >= 1,
        ensures
            (res, history(*final(t)), final(tape)@) == equality_prove(
                gens@,
                *v1,
                *s1,
                *v2,
                *s2,
                history(*old(t)),
                old(tape)@,
            ),
    {
        proof {
            lemma_names();
        }
        append_protocol_name(t, "equality proof");
        let r = tape.random_scalar("r");
        let c1 = gens.commit_one(v1, s1);
        append_point(t, "C1", &c1);
        let c2 = gens.commit_one(v2, s2);
        append_point(t, "C2", &c2);
        let alpha = scale_point(&gens.h, &r);
        append_point(t, "alpha", &alpha);
        let c = challenge_scalar(t, "c");
        let z = c.times(&s1.minus(s2)).plus(&r);
        EqualityProof { alpha, z }
    }
}

impl ProductProof {
    /// Proves that `z`, committed under `rz`, is the product of `x`, committed
    /// under `rx`, and `y`, committed under `ry`.
    pub fn prove(
        gens: &MultiCommitGens,
        t: &mut Transcript,
        tape: &mut RandomTape,
        x: &Scalar,
        rx: &Scalar,
        y: &Scalar,
        ry: &Scalar,
        z: &Scalar,
        rz: &Scalar,
    ) -> (res: (ProductProof, CompressedGroup, CompressedGroup, CompressedGroup))
        requires
            gens.wf(),
            gens.n >= 1,
        ensures
            (ProductOutcome {
                proof: res.0,
                x: res.1,
                y: res.2,
                z: res.3,
                th: history(*final(t)),
                rh: final(tape)@,
            }) == product_prove(
                gens@,
                *x,
                *rx,
                *y,
                *ry,
                *z,
                *rz,
                history(*old(t)),
                old(tape)@,
            ),
            res.1.valid(),
            res.2.valid(),
            res.3.valid(),
    {
        proof {
            lemma_names();
        }
        append_protocol_name(t, "product proof");
        let b1 = tape.random_scalar("b1");
        let b2 = tape.random_scalar("b2");
        let b3 = tape.random_scalar("b3");
        let b4 = tape.random_scalar("b4");
        let b5 = tape.random_scalar("b5");
        let cx = gens.commit_one(x, rx);
        append_point(t, "X", &cx);
        let cy = gens.commit_one(y, ry);
        append_point(t, "Y", &cy);
        let cz = gens.commit_one(z, rz);
        append_point(t, "Z", &cz);
        let alpha = gens.commit_one(&b1, &b2);
        append_point(t, "alpha", &alpha);
        let beta = gens.commit_one(&b3, &b4);
        append_point(t, "beta", &beta);
        let delta = match combine_two(&b3, &b5, &cx, &gens.h) {
            Some(p) => p,
            None => cx,
        };
        append_point(t, "delta", &delta);
        let c = challenge_scalar(t, "c");
        let proof = ProductProof {
            alpha,
            beta,
            delta,
            z1: b1.plus(&c.times(x)),
            z2: b2.plus(&c.times(rx)),
            z3: b3.plus(&c.times(y)),
            z4: b4.plus(&c.times(ry)),
            z5: b5.plus(&c.times(&rz.minus(&rx.times(y)))),
        };
        (proof, cx, cy, cz)
    }
}

impl DotProductProof {
    /// Proves that `x`, committed under `blind_x`, has with `a` the product
    /// `y`, committed under `blind_y`.
    pub fn prove(
        gens_1: &MultiCommitGens,
        gens_n: &MultiCommitGens,
        t: &mut Transcript,
        tape: &mut RandomTape,
        x: &Vec<Scalar>,
        blind_x: &Scalar,
        a: &Vec<Scalar>,
        y: &Scalar,
        blind_y: &Scalar,
    ) -> (res: DotProductProof)
        requires
            gens_1.wf(),
            gens_n.wf(),
            gens_1.n >= 1,
            x@.len() <= gens_n.n,
            a@.len() == x@.len(),
        ensures
            (res@, history(*final(t)), final(tape)@) == linear_prove(
                gens_1@,
                gens_n@,
                x@,
                *blind_x,
                a@,
                *y,
                *blind_y,
                history(*old(t)),
                old(tape)@,
            ),
    {
        proof {
            reveal(linear_prove);
            lemma_names();
        }
        append_protocol_name(t, "dot product proof");
        let d = tape.random_vector("d_vec", x.len());
        let r_delta = tape.random_scalar("r_delta");
        let r_beta = tape.random_scalar("r_beta");
        let cx = gens_n.commit(x, blind_x);
        append_point(t, "Cx", &cx);
        let cy = gens_1.commit_one(y, blind_y);
        append_point(t, "Cy", &cy);
        append_scalars(t, "a", a);
        let delta = gens_n.commit(&d, &r_delta);
        append_point(t, "delta", &delta);
        let ad = dot_of(a, &d);
        let beta = gens_1.commit_one(&ad, &r_beta);
        append_point(t, "beta", &beta);
        let c = challenge_scalar(t, "c");
        let mut z: Vec<Scalar> = Vec::new();
        let mut i: usize = 0;
        while i < x.len()
            invariant
                i <= x@.len(),
                d@.len() == x@.len(),
                z@ == affine(c, x@, d@).take(i as int),
            decreases x@.len() - i,
        {
            z.push(c.times(&x[i]).plus(&d[i]));
            i += 1;
            assert(z@ =~= affine(c, x@, d@).take(i as int));
        }
        assert(z@ =~= affine(c, x@, d@));
        let z_delta = c.times(blind_x).plus(&r_delta);
        let z_beta = c.times(blind_y).plus(&r_beta);
        DotProductProof { delta, beta, z, z_delta, z_beta }
    }
}

} // verus!
