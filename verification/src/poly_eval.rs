//! Proofs of the value of a committed polynomial at a point.
use crate::commitments::{commitment, Gens};
use crate::dense_mlpoly::{
    combined_rows, eq_evals, factored_evals, left_vars, lemma_factored, lemma_left_size,
    right_vars, DensePolynomial, PolyCommitment, PolyCommitmentGens,
};
use crate::errors::ProofVerifyError;
use crate::group::{all_valid, msm, try_multiscalar_mul, CompressedGroup};
use crate::math::lemma_log2_of_pow2;
use crate::nizk::{dot_prove, dot_verify, DotLog, DotOutcome, DotProductProofLog};
use crate::random::RandomTape;
use crate::scalar::{szero, Scalar};
use crate::transcript::{append_protocol_name, history, named, History};
use crate::vectors::{dot, dot_of, repeated, zeros};
use merlin::Transcript;
use vstd::arithmetic::power2::pow2;
use vstd::prelude::*;
use vstd::string::StringSliceAdditionalSpecFns;

verus! {

/// A proof of the value of a committed polynomial.
pub struct PolyEvalProof {
    /// The proof of the inner product of columns and weights.
    pub proof: DotProductProofLog,
}

impl View for PolyEvalProof {
    type V = DotLog;

    open spec fn view(&self) -> DotLog {
        self.proof@
    }
}

/// The weights of the rows at a point.
pub open spec fn row_weights(r: Seq<Scalar>) -> Seq<Scalar> {
    eq_evals(r.take(left_vars(r.len()) as int))
}

/// The weights of the columns at a point.
pub open spec fn column_weights(r: Seq<Scalar>) -> Seq<Scalar> {
    eq_evals(r.skip(left_vars(r.len()) as int))
}

/// The prover of the value `zr`, committed under `bzr`, at the point `r` of
/// the polynomial with values `z`, whose rows are committed under `blinds`.
#[verifier::opaque]
pub open spec fn eval_prove(
    gens: (Gens, Gens),
    z: Seq<Scalar>,
    blinds: Seq<Scalar>,
    r: Seq<Scalar>,
    zr: Scalar,
    bzr: Scalar,
    th: History,
    rh: History,
) -> DotOutcome {
    dot_prove(
        gens.0,
        gens.1,
        combined_rows(z, row_weights(r), pow2(right_vars(r.len()))),
        dot(blinds, row_weights(r)),
        column_weights(r),
        zr,
        bzr,
        named(th, "polynomial evaluation proof"),
        rh,
    )
}

/// The prover of a value in the clear, of a polynomial committed without
/// blinds.
#[verifier::opaque]
pub open spec fn plain_prove(
    gens: (Gens, Gens),
    z: Seq<Scalar>,
    r: Seq<Scalar>,
    zr: Scalar,
    th: History,
    rh: History,
) -> DotOutcome {
    eval_prove(gens, z, repeated(szero(), pow2(left_vars(r.len()))), r, zr, szero(), th, rh)
}

/// What a verifier of a value finds: whether the proof holds, and the
/// transcript after it. A commitment of another size, or one that holds what is
/// no group element, ends the check early.
#[verifier::opaque]
pub open spec fn eval_verify(
    gens: (Gens, Gens),
    r: Seq<Scalar>,
    czr: CompressedGroup,
    comm: Seq<CompressedGroup>,
    p: DotLog,
    th: History,
) -> (bool, History) {
    let (holds, th1) = dot_verify(
        gens.0,
        gens.1,
        column_weights(r),
        msm(row_weights(r), comm),
        czr,
        p,
        named(th, "polynomial evaluation proof"),
    );
    if comm.len() == pow2(left_vars(r.len())) && all_valid(comm) {
        (holds, th1)
    } else {
        (false, named(th, "polynomial evaluation proof"))
    }
}

/// What a verifier of a value in the clear finds.
#[verifier::opaque]
pub open spec fn plain_verify(
    gens: (Gens, Gens),
    r: Seq<Scalar>,
    zr: Scalar,
    comm: Seq<CompressedGroup>,
    p: DotLog,
    th: History,
) -> (bool, History) {
    eval_verify(gens, r, commitment(seq![zr], szero(), gens.1), comm, p, th)
}

proof fn lemma_name()
    ensures
        "polynomial evaluation proof".spec_bytes().len() <= u32::MAX,
{
    reveal_strlit("polynomial evaluation proof");
    vstd::utf8::is_ascii_chars_encode_utf8("polynomial evaluation proof"@);
}

impl PolyEvalProof {
    /// Proves the value of a polynomial at a point. Blinds that are not given
    /// are zero.
    pub fn prove(
        poly: &DensePolynomial,
        blinds_opt: Option<&Vec<Scalar>>,
        r: &Vec<Scalar>,
        zr: &Scalar,
        blind_zr_opt: Option<&Scalar>,
        gens: &PolyCommitmentGens,
        t: &mut Transcript,
        tape: &mut RandomTape,
    ) -> (res: (PolyEvalProof, CompressedGroup))
        requires
            poly@.len() == pow2(r@.len()),
            gens.fits(r@.len()),
            blinds_opt matches Some(b) ==> b@.len() == pow2(left_vars(r@.len())),
        ensures
            ({
                let out = eval_prove(
                    gens@,
                    poly@,
                    match blinds_opt {
                        Some(b) => b@,
                        None => repeated(szero(), pow2(left_vars(r@.len()))),
                    },
                    r@,
                    *zr,
                    match blind_zr_opt {
                        Some(b) => *b,
                        None => szero(),
                    },
                    history(*old(t)),
                    old(tape)@,
                );
                &&& res.0@ == out.proof
                &&& res.1 == out.cy
                &&& history(*final(t)) == out.th
                &&& final(tape)@ == out.rh
            }),
            res.1.valid(),
            res.1 == commitment(
                seq![*zr],
                match blind_zr_opt {
                    Some(b) => *b,
                    None => szero(),
                },
                gens@.1,
            ),
    {
        proof {
            reveal(eval_prove);
            lemma_name();
            lemma_factored(r@.len());
            lemma_left_size(r@.len());
            lemma_log2_of_pow2(right_vars(r@.len()));
        }
        append_protocol_name(t, "polynomial evaluation proof");
        let (l, right) = factored_evals(r);
        let width: usize = right.len();
        let lz = poly.bound(&l, width);
        let lz_blind = match blinds_opt {
            Some(b) => dot_of(b, &l),
            None => {
                let b = zeros(l.len());
                dot_of(&b, &l)
            },
        };
        let blind_zr = match blind_zr_opt {
            Some(b) => *b,
            None => Scalar::zero(),
        };
        let (proof, _cx, cy) = DotProductProofLog::prove(
            &gens.gens,
            t,
            tape,
            &lz,
            &lz_blind,
            &right,
            zr,
            &blind_zr,
        );
        (PolyEvalProof { proof }, cy)
    }

    /// Checks the value that `czr` commits to.
    pub fn verify(
        &self,
        gens: &PolyCommitmentGens,
        t: &mut Transcript,
        r: &Vec<Scalar>,
        czr: &CompressedGroup,
        comm: &PolyCommitment,
    ) -> (res: Result<(), ProofVerifyError>)
        requires
            gens.fits(r@.len()),
        ensures
            res matches Err(e) ==> e == ProofVerifyError::InternalError,
            ({
                let (holds, th) = eval_verify(gens@, r@, *czr, comm@, self@, history(*old(t)));
                &&& res is Ok <==> holds
                &&& history(*final(t)) == th
            }),
    {
        proof {
            reveal(eval_verify);
            lemma_name();
            lemma_factored(r@.len());
            lemma_left_size(r@.len());
        }
        append_protocol_name(t, "polynomial evaluation proof");
        let (l, right) = factored_evals(r);
        if comm.c.len() != l.len() {
            return Err(ProofVerifyError::InternalError);
        }
        let c_lz = match try_multiscalar_mul(&l, &comm.c) {
            Some(p) => p,
            None => return Err(ProofVerifyError::InternalError),
        };
        self.proof.verify(&gens.gens, t, &right, &c_lz, czr)
    }

    /// Checks a value in the clear.
    pub fn verify_plain(
        &self,
        gens: &PolyCommitmentGens,
        t: &mut Transcript,
        r: &Vec<Scalar>,
        zr: &Scalar,
        comm: &PolyCommitment,
    ) -> (res: Result<(), ProofVerifyError>)
        requires
            gens.fits(r@.len()),
        ensures
            res matches Err(e) ==> e == ProofVerifyError::InternalError,
            ({
                let (holds, th) = plain_verify(gens@, r@, *zr, comm@, self@, history(*old(t)));
                &&& res is Ok <==> holds
                &&& history(*final(t)) == th
            }),
    {
        proof {
            reveal(plain_verify);
        }
        let czr = gens.gens.gens_1.commit_one(zr, &Scalar::zero());
        self.verify(gens, t, r, &czr, comm)
    }
}

} // verus!
