//! Proofs that blocks and their execution satisfy constraints.
use crate::commitments::{commitment, Gens};
use crate::committed::{
    all_wf, commit_pairs, commit_single, fits_gens, mat_commitments, mats_of, said_matrix,
    said_pairs, take_comms, Committed,
};
use crate::dense_mlpoly::{
    bound_top, eq_evals, evaluation, DensePolynomial, EqPolynomial, PolyCommitment,
};
use crate::group::CompressedGroup;
use crate::io_proofs::proofs;
use crate::jobs::points_of;
use crate::math::{bits, is_pow2, log2_up, log_2, to_bin_array};
use crate::nizk::DotLog;
use crate::openings::{open_all, open_next, Opening};
use crate::poly_eval::{plain_prove, PolyEvalProof};
use crate::r1csgens::{R1CSGens, R1CSSumcheckGens};
use crate::r1csinstance::{all_fit, R1CSInstance, R1CS};
use crate::random::RandomTape;
use crate::scalar::{sadd, smul, sone, ssub, szero, Scalar};
use crate::sigma::{
    equality_prove, knowledge_prove, product_prove, EqualityProof, KnowledgeProof, ProductProof,
};
use crate::sparse::{fits_in, matrices, Entry};
use crate::sparse_mlpoly::plain_commitment;
use crate::statement::shaped;
use crate::sumcheck::{leftovers, sumcheck_prove, Comb, Rounds, Sumcheck, ZKSumcheckInstanceProof};
use crate::tables::{
    all_copies_bound, bind_copies, column_table, column_table_of, copies_bound, cube_table,
    factor_table, factor_table_of, multiply_all, product_cube, products_of, stretch, stretched,
    table_of, weigh_three, weighted_three,
};
use crate::transcript::{
    append_point, append_protocol_name, challenge, challenge_scalar, challenge_vector, challenges,
    drawn, history, named, said, History,
};
use crate::vectors::{concat, copy_of, flat, flatten, mats, part, repeated, rows};
use crate::witness::all_wide;
use merlin::Transcript;
use vstd::arithmetic::power2::pow2;
use vstd::prelude::*;
use vstd::string::StringSliceAdditionalSpecFns;

verus! {

/// What the step between the two sum-checks leaves.
pub struct Claims {
    /// The commitment to the left factor.
    pub comm_az: CompressedGroup,
    /// The commitment to the right factor.
    pub comm_bz: CompressedGroup,
    /// The commitment to the product that is claimed.
    pub comm_cz: CompressedGroup,
    /// The commitment to the product of the factors.
    pub comm_prod: CompressedGroup,
    /// The proof of knowledge of the product that is claimed.
    pub pok: KnowledgeProof,
    /// The proof of the product of the factors.
    pub prod: ProductProof,
    /// The proof that the first sum-check ends in the claims.
    pub eq: EqualityProof,
}

/// The step between the two sum-checks: what is proved, the weights of the
/// three claims, the joint claim and its blind, the transcript and the tape.
pub struct Middle {
    /// What is proved.
    pub claims: Claims,
    /// The weight of the left factor.
    pub ra: Scalar,
    /// The weight of the right factor.
    pub rb: Scalar,
    /// The weight of the product.
    pub rc: Scalar,
    /// The joint claim.
    pub claim: Scalar,
    /// The blind of the joint claim.
    pub blind: Scalar,
    /// The transcript.
    pub th: History,
    /// The tape.
    pub rh: History,
}

/// The step between the two sum-checks.
#[verifier::opaque]
pub open spec fn middle_prove(
    g1: Gens,
    tau: Scalar,
    az: Scalar,
    bz: Scalar,
    cz: Scalar,
    blind_post: Scalar,
    th: History,
    rh: History,
) -> Middle {
    let az_blind = challenge(rh, "Az_blind"@);
    let rh1 = drawn(rh, "Az_blind"@);
    let bz_blind = challenge(rh1, "Bz_blind"@);
    let rh2 = drawn(rh1, "Bz_blind"@);
    let cz_blind = challenge(rh2, "Cz_blind"@);
    let rh3 = drawn(rh2, "Cz_blind"@);
    let prod_blind = challenge(rh3, "prod_Az_Bz_blind"@);
    let rh4 = drawn(rh3, "prod_Az_Bz_blind"@);
    let (pok, comm_cz, th1, rh5) = knowledge_prove(g1, cz, cz_blind, th, rh4);
    let po = product_prove(
        g1,
        az,
        az_blind,
        bz,
        bz_blind,
        smul(az, bz),
        prod_blind,
        th1,
        rh5,
    );
    let h1 = said(
        said(po.th, "comm_Az_claim"@, po.x.encoding()),
        "comm_Bz_claim"@,
        po.y.encoding(),
    );
    let h2 = said(
        said(h1, "comm_Cz_claim"@, comm_cz.encoding()),
        "comm_prod_Az_Bz_claims"@,
        po.z.encoding(),
    );
    let post = smul(ssub(smul(az, bz), cz), tau);
    let (eq, h3, rh6) = equality_prove(
        g1,
        post,
        smul(tau, ssub(prod_blind, cz_blind)),
        post,
        blind_post,
        h2,
        po.rh,
    );
    let ra = challenge(h3, "challenge_Az"@);
    let h4 = drawn(h3, "challenge_Az"@);
    let rb = challenge(h4, "challenge_Bz"@);
    let h5 = drawn(h4, "challenge_Bz"@);
    let rc = challenge(h5, "challenge_Cz"@);
    Middle {
        claims: Claims {
            comm_az: po.x,
            comm_bz: po.y,
            comm_cz,
            comm_prod: po.z,
            pok,
            prod: po.proof,
            eq,
        },
        ra,
        rb,
        rc,
        claim: sadd(sadd(smul(ra, az), smul(rb, bz)), smul(rc, cz)),
        blind: sadd(sadd(smul(ra, az_blind), smul(rb, bz_blind)), smul(rc, cz_blind)),
        th: drawn(h5, "challenge_Cz"@),
        rh: rh6,
    }
}

struct MiddleOut {
    claims: Claims,
    ra: Scalar,
    rb: Scalar,
    rc: Scalar,
    claim: Scalar,
    blind: Scalar,
}

fn prove_middle(
    gens: &R1CSSumcheckGens,
    tau: &Scalar,
    az: &Scalar,
    bz: &Scalar,
    cz: &Scalar,
    blind_post: &Scalar,
    t: &mut Transcript,
    tape: &mut RandomTape,
) -> (r: MiddleOut)
    requires
        gens.wf(),
    ensures
        (Middle {
            claims: r.claims,
            ra: r.ra,
            rb: r.rb,
            rc: r.rc,
            claim: r.claim,
            blind: r.blind,
            th: history(*final(t)),
            rh: final(tape)@,
        }) == middle_prove(
            gens.gens_1@,
            *tau,
            *az,
            *bz,
            *cz,
            *blind_post,
            history(*old(t)),
            old(tape)@,
        ),
{
    proof {
        reveal(middle_prove);
    }
    let az_blind = tape.random_scalar("Az_blind");
    let bz_blind = tape.random_scalar("Bz_blind");
    let cz_blind = tape.random_scalar("Cz_blind");
    let prod_blind = tape.random_scalar("prod_Az_Bz_blind");
    let (pok, comm_cz) = KnowledgeProof::prove(&gens.gens_1, t, tape, cz, &cz_blind);
    let prod_claim = az.times(bz);
    let (prod, comm_az, comm_bz, comm_prod) = ProductProof::prove(
        &gens.gens_1,
        t,
        tape,
        az,
        &az_blind,
        bz,
        &bz_blind,
        &prod_claim,
        &prod_blind,
    );
    append_point(t, "comm_Az_claim", &comm_az);
    append_point(t, "comm_Bz_claim", &comm_bz);
    append_point(t, "comm_Cz_claim", &comm_cz);
    append_point(t, "comm_prod_Az_Bz_claims", &comm_prod);
    let blind_expected = tau.times(&prod_blind.minus(&cz_blind));
    let post = az.times(bz).minus(cz).times(tau);
    let eq = EqualityProof::prove(
        &gens.gens_1,
        t,
        tape,
        &post,
        &blind_expected,
        &post,
        blind_post,
    );
    let ra = challenge_scalar(t, "challenge_Az");
    let rb = challenge_scalar(t, "challenge_Bz");
    let rc = challenge_scalar(t, "challenge_Cz");
    let claim = ra.times(az).plus(&rb.times(bz)).plus(&rc.times(cz));
    let blind = ra.times(&az_blind).plus(&rb.times(&bz_blind)).plus(&rc.times(&cz_blind));
    MiddleOut {
        claims: Claims { comm_az, comm_bz, comm_cz, comm_prod, pok, prod, eq },
        ra,
        rb,
        rc,
        claim,
        blind,
    }
}

/// The proof that blocks satisfy their constraints.
pub struct R1CSProofBlock {
    /// The first sum-check.
    pub sc_proof_phase1: ZKSumcheckInstanceProof,
    /// The step between the sum-checks.
    pub claims_phase2: Claims,
    /// The second sum-check.
    pub sc_proof_phase2: ZKSumcheckInstanceProof,
    /// The commitments to the values of the blocks.
    pub comm_vars_at_ry_list: Vec<CompressedGroup>,
    /// The commitment to the value of the assignments.
    pub comm_vars_at_ry: CompressedGroup,
    /// The proofs of the values of the blocks.
    pub proof_eval_vars_at_ry_list: Vec<PolyEvalProof>,
    /// The proof that the second sum-check ends in the value.
    pub proof_eq_sc_phase2: EqualityProof,
}

/// What an `R1CSProofBlock` holds.
#[verifier::ext_equal]
pub struct BlockView {
    /// The first sum-check.
    pub sc1: Sumcheck,
    /// The step between the sum-checks.
    pub claims: Claims,
    /// The second sum-check.
    pub sc2: Sumcheck,
    /// The commitments to the values of the assignments of the blocks.
    pub comm_list: Seq<CompressedGroup>,
    /// The commitment to their combination.
    pub comm: CompressedGroup,
    /// The proofs of these values.
    pub evals: Seq<DotLog>,
    /// The proof that the second sum-check ends in the claims.
    pub eq2: EqualityProof,
}

impl View for R1CSProofBlock {
    type V = BlockView;

    open spec fn view(&self) -> BlockView {
        BlockView {
            sc1: self.sc_proof_phase1@,
            claims: self.claims_phase2,
            sc2: self.sc_proof_phase2@,
            comm_list: self.comm_vars_at_ry_list@,
            comm: self.comm_vars_at_ry,
            evals: proofs(self.proof_eval_vars_at_ry_list@),
            eq2: self.proof_eq_sc_phase2,
        }
    }
}

/// The proof that the execution satisfies its constraints.
pub struct R1CSProofConsis {
    /// The first sum-check.
    pub sc_proof_phase1: ZKSumcheckInstanceProof,
    /// The step between the sum-checks.
    pub claims_phase2: Claims,
    /// The second sum-check.
    pub sc_proof_phase2: ZKSumcheckInstanceProof,
    /// The commitment to the value of the assignments.
    pub comm_vars_at_ry: CompressedGroup,
    /// The proof of the value of the assignments.
    pub proof_eval_vars_at_ry: PolyEvalProof,
    /// The proof that the second sum-check ends in the value.
    pub proof_eq_sc_phase2: EqualityProof,
}

/// What an `R1CSProofConsis` holds.
#[verifier::ext_equal]
pub struct ConsisView {
    /// The first sum-check.
    pub sc1: Sumcheck,
    /// The step between the sum-checks.
    pub claims: Claims,
    /// The second sum-check.
    pub sc2: Sumcheck,
    /// The commitment to the value of the execution.
    pub comm: CompressedGroup,
    /// The proof of this value.
    pub eval: DotLog,
    /// The proof that the second sum-check ends in the claims.
    pub eq2: EqualityProof,
}

impl View for R1CSProofConsis {
    type V = ConsisView;

    open spec fn view(&self) -> ConsisView {
        ConsisView {
            sc1: self.sc_proof_phase1@,
            claims: self.claims_phase2,
            sc2: self.sc_proof_phase2@,
            comm: self.comm_vars_at_ry,
            eval: self.proof_eval_vars_at_ry@,
            eq2: self.proof_eq_sc_phase2,
        }
    }
}

/// The proof that blocks and their execution satisfy constraints.
pub struct R1CSProof {
    /// The commitments to the variables of the blocks.
    pub block_comm_vars_list: Vec<PolyCommitment>,
    /// The commitments to the inputs and outputs of the blocks.
    pub block_comm_io_list: Vec<PolyCommitment>,
    /// The commitment to the execution.
    pub exec_comm_io: PolyCommitment,
    /// The proof about the blocks.
    pub block_proof: R1CSProofBlock,
    /// The proof about the execution.
    pub consis_proof: R1CSProofConsis,
}

impl R1CSProof {
    /// The name of the protocol.
    pub fn protocol_name() -> (r: &'static [u8])
        ensures
            r@ == "R1CS proof".spec_bytes(),
    {
        "R1CS proof".as_bytes()
    }

    /// The first sum-check over blocks: the weights `tau` of instances, copies
    /// and rows, each times the difference of the product of the factors and
    /// the product that is claimed, sum up to zero.
    fn block_prove_phase_one(
        num_rounds: usize,
        tau_p: &Vec<Scalar>,
        tau_q: &Vec<Scalar>,
        tau_x: &Vec<Scalar>,
        evals_az: Vec<Scalar>,
        evals_bz: Vec<Scalar>,
        evals_cz: Vec<Scalar>,
        gens: &R1CSSumcheckGens,
        t: &mut Transcript,
        tape: &mut RandomTape,
    ) -> (res: (ZKSumcheckInstanceProof, Vec<Scalar>, Vec<Scalar>, Scalar))
        requires
            gens.wf(),
            num_rounds >= 1,
            tau_x@.len() * (tau_q@.len() * tau_p@.len()) == pow2(num_rounds as nat),
            evals_az@.len() == pow2(num_rounds as nat),
            evals_bz@.len() == pow2(num_rounds as nat),
            evals_cz@.len() == pow2(num_rounds as nat),
        ensures
            ({
                let (out, ts) = sumcheck_prove(
                    szero(),
                    szero(),
                    num_rounds as nat,
                    seq![
                        factor_table(tau_p@, tau_q@, tau_x@),
                        evals_az@,
                        evals_bz@,
                        evals_cz@,
                    ],
                    Comb::Additive,
                    gens.gens_1@,
                    gens.gens_4@,
                    history(*old(t)),
                    old(tape)@,
                );
                &&& res.0@ == out.messages()
                &&& res.1@ == out.r
                &&& res.2@ == leftovers(ts)
                &&& res.3 == out.blind
                &&& history(*final(t)) == out.th
                &&& final(tape)@ == out.rh
            }),
            res.1@.len() == num_rounds,
            res.2@.len() == 4,
    {
        let tau = factor_table_of(tau_p, tau_q, tau_x);
        proof {
            crate::tables::lemma_factor_table_len(tau_p@, tau_q@, tau_x@);
        }
        let tables: Vec<Vec<Scalar>> = vec![tau, evals_az, evals_bz, evals_cz];
        assert(rows(tables@) =~= seq![tau@, evals_az@, evals_bz@, evals_cz@]);
        ZKSumcheckInstanceProof::prove(
            &Scalar::zero(),
            &Scalar::zero(),
            num_rounds,
            tables,
            &Comb::Additive,
            &gens.gens_1,
            &gens.gens_4,
            t,
            tape,
        )
    }

    /// The second sum-check over blocks: assignments, matrices and the weights
    /// of instances sum up to the joint claim.
    fn block_prove_phase_two(
        num_rounds: usize,
        claim: &Scalar,
        blind_claim: &Scalar,
        evals_z: Vec<Scalar>,
        evals_abc: Vec<Scalar>,
        evals_eq: Vec<Scalar>,
        gens: &R1CSSumcheckGens,
        t: &mut Transcript,
        tape: &mut RandomTape,
    ) -> (res: (ZKSumcheckInstanceProof, Vec<Scalar>, Vec<Scalar>, Scalar))
        requires
            gens.wf(),
            num_rounds >= 1,
            evals_z@.len() == pow2(num_rounds as nat),
            evals_abc@.len() == pow2(num_rounds as nat),
            evals_eq@.len() == pow2(num_rounds as nat),
        ensures
            ({
                let (out, ts) = sumcheck_prove(
                    *claim,
                    *blind_claim,
                    num_rounds as nat,
                    seq![evals_z@, evals_abc@, evals_eq@],
                    Comb::Cubic,
                    gens.gens_1@,
                    gens.gens_4@,
                    history(*old(t)),
                    old(tape)@,
                );
                &&& res.0@ == out.messages()
                &&& res.1@ == out.r
                &&& res.2@ == leftovers(ts)
                &&& res.3 == out.blind
                &&& history(*final(t)) == out.th
                &&& final(tape)@ == out.rh
            }),
            res.1@.len() == num_rounds,
            res.2@.len() == 3,
    {
        let tables: Vec<Vec<Scalar>> = vec![evals_z, evals_abc, evals_eq];
        assert(rows(tables@) =~= seq![evals_z@, evals_abc@, evals_eq@]);
        ZKSumcheckInstanceProof::prove(
            claim,
            blind_claim,
            num_rounds,
            tables,
            &Comb::Cubic,
            &gens.gens_1,
            &gens.gens_4,
            t,
            tape,
        )
    }

    /// The first sum-check over the execution.
    fn consis_prove_phase_one(
        num_rounds: usize,
        evals_tau: Vec<Scalar>,
        evals_az: Vec<Scalar>,
        evals_bz: Vec<Scalar>,
        evals_cz: Vec<Scalar>,
        gens: &R1CSSumcheckGens,
        t: &mut Transcript,
        tape: &mut RandomTape,
    ) -> (res: (ZKSumcheckInstanceProof, Vec<Scalar>, Vec<Scalar>, Scalar))
        requires
            gens.wf(),
            num_rounds >= 1,
            evals_tau@.len() == pow2(num_rounds as nat),
            evals_az@.len() == pow2(num_rounds as nat),
            evals_bz@.len() == pow2(num_rounds as nat),
            evals_cz@.len() == pow2(num_rounds as nat),
        ensures
            ({
                let (out, ts) = sumcheck_prove(
                    szero(),
                    szero(),
                    num_rounds as nat,
                    seq![evals_tau@, evals_az@, evals_bz@, evals_cz@],
                    Comb::Additive,
                    gens.gens_1@,
                    gens.gens_4@,
                    history(*old(t)),
                    old(tape)@,
                );
                &&& res.0@ == out.messages()
                &&& res.1@ == out.r
                &&& res.2@ == leftovers(ts)
                &&& res.3 == out.blind
                &&& history(*final(t)) == out.th
                &&& final(tape)@ == out.rh
            }),
            res.1@.len() == num_rounds,
            res.2@.len() == 4,
    {
        let tables: Vec<Vec<Scalar>> = vec![evals_tau, evals_az, evals_bz, evals_cz];
        assert(rows(tables@) =~= seq![evals_tau@, evals_az@, evals_bz@, evals_cz@]);
        ZKSumcheckInstanceProof::prove(
            &Scalar::zero(),
            &Scalar::zero(),
            num_rounds,
            tables,
            &Comb::Additive,
            &gens.gens_1,
            &gens.gens_4,
            t,
            tape,
        )
    }

    /// The second sum-check over the execution.
    fn consis_prove_phase_two(
        num_rounds: usize,
        claim: &Scalar,
        blind_claim: &Scalar,
        evals_z: Vec<Scalar>,
        evals_abc: Vec<Scalar>,
        gens: &R1CSSumcheckGens,
        t: &mut Transcript,
        tape: &mut RandomTape,
    ) -> (res: (ZKSumcheckInstanceProof, Vec<Scalar>, Vec<Scalar>, Scalar))
        requires
            gens.wf(),
            num_rounds >= 1,
            evals_z@.len() == pow2(num_rounds as nat),
            evals_abc@.len() == pow2(num_rounds as nat),
        ensures
            ({
                let (out, ts) = sumcheck_prove(
                    *claim,
                    *blind_claim,
                    num_rounds as nat,
                    seq![evals_z@, evals_abc@],
                    Comb::Quad,
                    gens.gens_1@,
                    gens.gens_3@,
                    history(*old(t)),
                    old(tape)@,
                );
                &&& res.0@ == out.messages()
                &&& res.1@ == out.r
                &&& res.2@ == leftovers(ts)
                &&& res.3 == out.blind
                &&& history(*final(t)) == out.th
                &&& final(tape)@ == out.rh
            }),
            res.1@.len() == num_rounds,
            res.2@.len() == 2,
    {
        let tables: Vec<Vec<Scalar>> = vec![evals_z, evals_abc];
        assert(rows(tables@) =~= seq![evals_z@, evals_abc@]);
        ZKSumcheckInstanceProof::prove(
            claim,
            blind_claim,
            num_rounds,
            tables,
            &Comb::Quad,
            &gens.gens_1,
            &gens.gens_3,
            t,
            tape,
        )
    }
}

/// The assignments of copies: variables and inputs side by side.
pub open spec fn joined(vars: Seq<Seq<Scalar>>, inputs: Seq<Seq<Scalar>>) -> Seq<Seq<Scalar>> {
    Seq::new(vars.len(), |j: int| vars[j] + inputs[j])
}

/// The assignments of all blocks.
pub open spec fn all_joined(vars: Seq<Seq<Seq<Scalar>>>, inputs: Seq<Seq<Seq<Scalar>>>) -> Seq<
    Seq<Seq<Scalar>>,
> {
    Seq::new(vars.len(), |p: int| joined(vars[p], inputs[p]))
}

/// Two lists mixed: `1 - r` of the first and `r` of the second.
pub open spec fn mixed(a: Seq<Scalar>, b: Seq<Scalar>, r: Scalar) -> Seq<Scalar> {
    Seq::new(a.len(), |i: int| sadd(smul(ssub(sone(), r), a[i]), smul(r, b[i])))
}

/// What is proved of blocks.
pub struct BlockInput {
    /// The variables.
    pub vars: Seq<Seq<Seq<Scalar>>>,
    /// The inputs.
    pub inputs: Seq<Seq<Seq<Scalar>>>,
    /// The largest number of copies.
    pub max: nat,
    /// The number of variables, and of inputs, of a copy.
    pub width: nat,
    /// The constraints.
    pub inst: R1CS,
    /// The generators.
    pub gens: R1CSGens,
}

/// What the first sum-check over blocks is about: the weights of instances,
/// copies and rows, and the transcript after they were drawn.
pub open spec fn block_taus(i: BlockInput, th: History) -> (
    Seq<Scalar>,
    Seq<Scalar>,
    Seq<Scalar>,
    History,
) {
    let (tp, h1) = challenges(th, "challenge_tau_p"@, i.np());
    let (tq, h2) = challenges(h1, "challenge_tau_q"@, i.nq());
    let (tx, h3) = challenges(h2, "challenge_tau_x"@, i.nx());
    (eq_evals(tp), eq_evals(tq), eq_evals(tx), h3)
}

/// What the proof about blocks ends with.
#[verifier::ext_equal]
pub struct BlockOutcome {
    /// The proof.
    pub proof: BlockView,
    /// The coordinates of the instance.
    pub rp: Seq<Scalar>,
    /// The coordinates of the copy, last first.
    pub rq_rev: Seq<Scalar>,
    /// The coordinates of the row.
    pub rx: Seq<Scalar>,
    /// The coordinates of the column.
    pub ry: Seq<Scalar>,
    /// The transcript.
    pub th: History,
    /// The tape.
    pub rh: History,
}

/// The product of the differences of one and the first `k` of a list, times a
/// value.
pub open spec fn damped(v: Scalar, r: Seq<Scalar>, k: nat) -> Scalar
    decreases k,
{
    if k == 0 {
        v
    } else {
        smul(damped(v, r, (k - 1) as nat), ssub(sone(), r[k - 1]))
    }
}

impl BlockInput {
    /// The number of coordinates of the instance.
    pub open spec fn np(self) -> nat {
        log2_up(self.vars.len())
    }

    /// The number of coordinates of the copy.
    pub open spec fn nq(self) -> nat {
        log2_up(self.max)
    }

    /// The number of coordinates of the row.
    pub open spec fn nx(self) -> nat {
        log2_up(self.inst.num_cons)
    }

    /// The number of coordinates of the column.
    pub open spec fn ny(self) -> nat {
        log2_up(2 * self.width)
    }

    /// The assignments.
    pub open spec fn z(self) -> Seq<Seq<Seq<Scalar>>> {
        all_joined(self.vars, self.inputs)
    }

    /// The table of the products of one of the three lists of matrices with
    /// the assignments.
    pub open spec fn products(self, m: Seq<Seq<Entry>>) -> Seq<Scalar> {
        cube_table(
            product_cube(m, self.inst.num_cons, self.z()),
            self.nq(),
            self.inst.num_cons,
        )
    }

    /// What is opened of block `p`.
    pub open spec fn opening(self, rq: Seq<Scalar>, ry: Seq<Scalar>, p: int) -> Opening {
        let z = mixed(flat(self.vars[p]), flat(self.inputs[p]), ry[0]);
        let point = rq.skip(self.nq() - log2_up(self.vars[p].len())) + ry.skip(1);
        Opening { z, point, value: evaluation(z, point) }
    }

    /// What is opened of the blocks.
    pub open spec fn openings(self, rq: Seq<Scalar>, ry: Seq<Scalar>) -> Seq<Opening> {
        Seq::new(self.vars.len(), |p: int| self.opening(rq, ry, p))
    }

    /// The values that are opened, each as one of a polynomial in all
    /// coordinates of the copy.
    pub open spec fn full_values(self, rq: Seq<Scalar>, ry: Seq<Scalar>) -> Seq<Scalar> {
        Seq::new(
            self.vars.len(),
            |p: int|
                damped(
                    self.opening(rq, ry, p).value,
                    rq,
                    (self.nq() - log2_up(self.vars[p].len())) as nat,
                ),
        )
    }

    /// The tables of the first sum-check.
    pub open spec fn first_tables(self, th: History) -> Seq<Seq<Scalar>> {
        let (tp, tq, tx, _) = block_taus(self, th);
        seq![
            factor_table(tp, tq, tx),
            self.products(self.inst.a),
            self.products(self.inst.b),
            self.products(self.inst.c),
        ]
    }

    /// The first sum-check: what the constraints miss, weighted, adds up to
    /// zero.
    pub open spec fn first_check(self, th: History, rh: History) -> (Rounds, Seq<Seq<Scalar>>) {
        sumcheck_prove(
            szero(),
            szero(),
            self.nx() + self.nq() + self.np(),
            self.first_tables(th),
            Comb::Additive,
            self.gens.gens_sc.gens_1@,
            self.gens.gens_sc.gens_4@,
            block_taus(self, th).3,
            rh,
        )
    }

    /// The step between the two sum-checks.
    pub open spec fn middle(self, th: History, rh: History) -> Middle {
        let (s1, t1) = self.first_check(th, rh);
        let left = leftovers(t1);
        middle_prove(
            self.gens.gens_sc.gens_1@,
            left[0],
            left[1],
            left[2],
            left[3],
            s1.blind,
            s1.th,
            s1.rh,
        )
    }

    /// The coordinates of the copy among the challenges of the first
    /// sum-check, last first.
    pub open spec fn copy_part(self, r: Seq<Scalar>) -> Seq<Scalar> {
        r.subrange(self.nx() as int, (self.nx() + self.nq()) as int)
    }

    /// The tables of the second sum-check, under the challenges of the first
    /// one and the weights of its claims.
    pub open spec fn second_tables(
        self,
        r: Seq<Scalar>,
        ra: Scalar,
        rb: Scalar,
        rc: Scalar,
    ) -> Seq<Seq<Scalar>> {
        let z_len = 2 * self.width;
        let ex = eq_evals(r.take(self.nx() as int));
        seq![
            all_copies_bound(self.z(), eq_evals(self.copy_part(r).reverse()), z_len),
            weighted_three(
                ra,
                rb,
                rc,
                column_table(self.inst.a, ex, z_len),
                column_table(self.inst.b, ex, z_len),
                column_table(self.inst.c, ex, z_len),
            ),
            stretched(eq_evals(r.skip((self.nx() + self.nq()) as int)), z_len),
        ]
    }

    /// The second sum-check: the assignments meet the joint claim.
    pub open spec fn second_check(self, th: History, rh: History) -> (Rounds, Seq<Seq<Scalar>>) {
        let mid = self.middle(th, rh);
        sumcheck_prove(
            mid.claim,
            mid.blind,
            self.np() + self.ny(),
            self.second_tables(self.first_check(th, rh).0.r, mid.ra, mid.rb, mid.rc),
            Comb::Cubic,
            self.gens.gens_sc.gens_1@,
            self.gens.gens_sc.gens_4@,
            mid.th,
            mid.rh,
        )
    }

    /// The proof about blocks, from a transcript and a tape.
    #[verifier::opaque]
    pub open spec fn prove(self, th: History, rh: History) -> BlockOutcome {
        let (s1, t1) = self.first_check(th, rh);
        let mid = self.middle(th, rh);
        let rx = s1.r.take(self.nx() as int);
        let rq_rev = self.copy_part(s1.r);
        let rq = rq_rev.reverse();
        let (s2, t2) = self.second_check(th, rh);
        let rp = s2.r.take(self.np() as int);
        let ry = s2.r.skip(self.np() as int);
        let opened = self.openings(rq, ry);
        let pc = self.gens.gens_pc@;
        let (ps, h2, rh2) = open_all(pc, opened, s2.th, s2.rh, opened.len());
        let value = evaluation(self.full_values(rq, ry), rp);
        let left2 = leftovers(t2);
        let post = smul(smul(left2[0], left2[1]), left2[2]);
        let (eq2, h3, rh3) = equality_prove(pc.1, post, szero(), post, s2.blind, h2, rh2);
        BlockOutcome {
            proof: BlockView {
                sc1: s1.messages(),
                claims: mid.claims,
                sc2: s2.messages(),
                comm_list: opened.map_values(
                    |o: Opening| commitment(seq![o.value], szero(), pc.1),
                ),
                comm: commitment(seq![value], szero(), pc.1),
                evals: ps,
                eq2,
            },
            rp,
            rq_rev,
            rx,
            ry,
            th: h3,
            rh: rh3,
        }
    }

    /// Whether block `p` has a matching size.
    pub open spec fn block_fits(self, p: int) -> bool {
        let n = self.vars[p].len();
        &&& is_pow2(n)
        &&& n <= self.max
        &&& shaped(self.vars[p], n, self.width)
        &&& shaped(self.inputs[p], n, self.width)
        &&& self.gens.gens_pc.fits(log2_up(n * self.width))
    }

    /// The sizes agree, and the generators suffice.
    pub open spec fn wf(self) -> bool {
        &&& self.gens.wf()
        &&& is_pow2(self.vars.len())
        &&& is_pow2(self.max)
        &&& is_pow2(self.width)
        &&& is_pow2(self.inst.num_cons)
        &&& self.inst.num_vars == 2 * self.width
        &&& self.inst.in_range()
        &&& self.inst.a.len() == self.vars.len()
        &&& self.inputs.len() == self.vars.len()
        &&& forall|p: int| 0 <= p < self.vars.len() ==> #[trigger] self.block_fits(p)
        &&& self.nx() + self.nq() + self.np() >= 1
        &&& self.inst.num_cons * (self.max * self.vars.len()) <= usize::MAX
        &&& self.vars.len() * (2 * self.width) <= usize::MAX
    }
}

fn join_blocks(vars: &Vec<Committed>, inputs: &Vec<Committed>) -> (r: Vec<Vec<Vec<Scalar>>>)
    requires
        vars@.len() == inputs@.len(),
        forall|p: int|
            0 <= p < vars@.len() ==> (#[trigger] vars@[p]).mat().len() <= inputs@[p].mat().len(),
    ensures
        mats(r@) == all_joined(mats_of(vars@), mats_of(inputs@)),
{
    let ghost (a, b) = (mats_of(vars@), mats_of(inputs@));
    let mut r: Vec<Vec<Vec<Scalar>>> = Vec::new();
    let mut p: usize = 0;
    while p < vars.len()
        invariant
            p <= vars@.len(),
            vars@.len() == inputs@.len(),
            a == mats_of(vars@),
            b == mats_of(inputs@),
            forall|p: int|
                0 <= p < vars@.len() ==> (#[trigger] vars@[p]).mat().len()
                    <= inputs@[p].mat().len(),
            r@.len() == p,
            forall|j: int| 0 <= j < p ==> rows((#[trigger] r@[j])@) == joined(a[j], b[j]),
        decreases vars@.len() - p,
    {
        let (x, y) = (&vars[p].rows, &inputs[p].rows);
        assert(vars@[p as int].mat().len() <= inputs@[p as int].mat().len());
        let mut m: Vec<Vec<Scalar>> = Vec::new();
        let mut q: usize = 0;
        while q < x.len()
            invariant
                q <= x@.len() <= y@.len(),
                m@.len() == q,
                forall|j: int| 0 <= j < q ==> (#[trigger] m@[j])@ == x@[j]@ + y@[j]@,
            decreases x@.len() - q,
        {
            m.push(concat(&x[q], &y[q]));
            q += 1;
        }
        assert(rows(m@) =~= joined(a[p as int], b[p as int]));
        r.push(m);
        p += 1;
    }
    assert(mats(r@) =~= all_joined(a, b));
    r
}

/// The table of the products of matrices with assignments.
fn product_table(
    m: &Vec<Vec<Entry>>,
    num_cons: usize,
    z: &Vec<Vec<Vec<Scalar>>>,
    z_len: usize,
    bits: usize,
) -> (r: Vec<Scalar>)
    requires
        m@.len() == z@.len(),
        all_fit(matrices(m@), num_cons as nat, z_len as nat),
        forall|p: int| 0 <= p < z@.len() ==> all_wide(rows((#[trigger] z@[p])@), z_len as nat),
        pow2(bits as nat) <= usize::MAX,
    ensures
        r@ == cube_table(
            product_cube(matrices(m@), num_cons as nat, mats(z@)),
            bits as nat,
            num_cons as nat,
        ),
        r@.len() == num_cons * (pow2(bits as nat) * z@.len()),
{
    let ghost all = matrices(m@);
    let mut cube: Vec<Vec<Vec<Scalar>>> = Vec::new();
    let mut p: usize = 0;
    while p < m.len()
        invariant
            p <= m@.len(),
            m@.len() == z@.len(),
            all == matrices(m@),
            all_fit(all, num_cons as nat, z_len as nat),
            forall|p: int| 0 <= p < z@.len() ==> all_wide(rows((#[trigger] z@[p])@), z_len as nat),
            cube@.len() == p,
            forall|j: int|
                0 <= j < p ==> rows((#[trigger] cube@[j])@) == products_of(
                    all[j],
                    num_cons as nat,
                    rows(z@[j]@),
                ),
        decreases m@.len() - p,
    {
        assert(fits_in(all[p as int], num_cons as nat, z_len as nat));
        assert(all_wide(rows(z@[p as int]@), z_len as nat));
        cube.push(multiply_all(&m[p], num_cons, &z[p], z_len));
        p += 1;
    }
    let ghost full = product_cube(all, num_cons as nat, mats(z@));
    assert(mats(cube@) =~= full);
    assert forall|p: int, q: int|
        0 <= p < cube@.len() && 0 <= q < cube@[p]@.len() implies (
    #[trigger] cube@[p]@[q])@.len() >= num_cons by {
        assert(rows(cube@[p]@)[q] == cube@[p]@[q]@);
        assert(rows(cube@[p]@) == products_of(all[p], num_cons as nat, rows(z@[p]@)));
    }
    proof {
        crate::tables::lemma_cube_table_len(full, bits as nat, num_cons as nat);
    }
    table_of(&cube, bits, num_cons)
}

/// Combines the copies of the assignments of all blocks.
fn bind_blocks(z: &Vec<Vec<Vec<Scalar>>>, eq: &Vec<Scalar>, z_len: usize) -> (r: Vec<Scalar>)
    requires
        forall|p: int|
            0 <= p < z@.len() ==> all_wide(rows((#[trigger] z@[p])@), z_len as nat) && z@[p]@.len()
                <= eq@.len(),
    ensures
        r@ == all_copies_bound(mats(z@), eq@, z_len as nat),
        r@.len() == z@.len() * z_len,
{
    let ghost full = mats(z@).map_values(|m: Seq<Seq<Scalar>>| copies_bound(m, eq@, z_len as nat));
    let mut out: Vec<Vec<Scalar>> = Vec::new();
    let mut p: usize = 0;
    while p < z.len()
        invariant
            p <= z@.len(),
            forall|p: int|
                0 <= p < z@.len() ==> all_wide(rows((#[trigger] z@[p])@), z_len as nat)
                    && z@[p]@.len() <= eq@.len(),
            out@.len() == p,
            forall|j: int|
                0 <= j < p ==> (#[trigger] out@[j])@ == copies_bound(
                    rows(z@[j]@),
                    eq@,
                    z_len as nat,
                ),
        decreases z@.len() - p,
    {
        assert(all_wide(rows(z@[p as int]@), z_len as nat));
        out.push(bind_copies(&z[p], eq, z_len));
        p += 1;
    }
    assert(rows(out@) =~= full);
    proof {
        crate::vectors::lemma_uniform_len(full, z_len as nat);
    }
    flatten(&out)
}

fn mix(a: &Vec<Scalar>, b: &Vec<Scalar>, r: &Scalar) -> (v: Vec<Scalar>)
    requires
        a@.len() <= b@.len(),
    ensures
        v@ == mixed(a@, b@, *r),
{
    let s = Scalar::one().minus(r);
    let mut v: Vec<Scalar> = Vec::new();
    let mut i: usize = 0;
    while i < a.len()
        invariant
            i <= a@.len() <= b@.len(),
            s == ssub(sone(), *r),
            v@ == mixed(a@, b@, *r).take(i as int),
        decreases a@.len() - i,
    {
        v.push(s.times(&a[i]).plus(&r.times(&b[i])));
        i += 1;
        assert(v@ =~= mixed(a@, b@, *r).take(i as int));
    }
    assert(v@ =~= mixed(a@, b@, *r));
    v
}

fn damp(v: &Scalar, r: &Vec<Scalar>, k: usize) -> (res: Scalar)
    requires
        k <= r@.len(),
    ensures
        res == damped(*v, r@, k as nat),
{
    let mut res = *v;
    let mut i: usize = 0;
    while i < k
        invariant
            i <= k <= r@.len(),
            res == damped(*v, r@, i as nat),
        decreases k - i,
    {
        res = res.times(&Scalar::one().minus(&r[i]));
        i += 1;
    }
    res
}

fn reverse(v: &Vec<Scalar>) -> (r: Vec<Scalar>)
    ensures
        r@ == v@.reverse(),
{
    let mut r: Vec<Scalar> = Vec::new();
    let n: usize = v.len();
    let mut i: usize = 0;
    while i < n
        invariant
            i <= n,
            n == v@.len(),
            r@ == v@.reverse().take(i as int),
        decreases n - i,
    {
        r.push(v[n - 1 - i]);
        i += 1;
        assert(r@ =~= v@.reverse().take(i as int));
    }
    assert(r@ =~= v@.reverse());
    r
}

impl BlockInput {
    /// The sizes that the sum-checks over blocks come with.
    pub proof fn lemma_sizes(self)
        requires
            self.wf(),
        ensures
            pow2(self.np()) == self.vars.len(),
            pow2(self.nq()) == self.max,
            pow2(self.nx()) == self.inst.num_cons,
            pow2(self.ny()) == 2 * self.width,
            self.ny() >= 1,
            self.width >= 1,
            self.max >= 1,
            self.max <= usize::MAX,
            pow2(self.nx() + self.nq() + self.np()) == self.inst.num_cons * (self.max
                * self.vars.len()),
            pow2(self.np() + self.ny()) == self.vars.len() * (2 * self.width),
            self.vars.len() >= 1,
            self.inst.num_cons >= 1,
            self.nx() <= 64,
            self.nq() <= 64,
            self.np() <= 64,
            self.ny() <= 64,
    {
        crate::sparse_mlpoly::lemma_pow2_product(self.width, self.width);
        crate::sparse_mlpoly::lemma_pow2_product(self.max, self.vars.len());
        crate::sparse_mlpoly::lemma_pow2_product(self.vars.len(), self.max);
        crate::sparse_mlpoly::lemma_pow2_product(self.inst.num_cons, self.max);
        vstd::arithmetic::power2::lemma_pow2_adds(self.nq(), self.np());
        vstd::arithmetic::power2::lemma_pow2_adds(self.nx(), self.nq() + self.np());
        vstd::arithmetic::power2::lemma_pow2_adds(self.np(), self.ny());
        assert(self.nx() + (self.nq() + self.np()) == self.nx() + self.nq() + self.np());
        assert(self.ny() >= 1) by {
            if self.ny() == 0 {
                vstd::arithmetic::power2::lemma2_to64();
            }
        }
        let (c, m, v) = (self.inst.num_cons, self.max, self.vars.len());
        assert(m <= c * (m * v) && c <= c * (m * v) && v <= c * (m * v)) by (nonlinear_arith)
            requires
                c >= 1,
                v >= 1,
                m >= 1,
        ;
        lemma_double(self.width, v);
        crate::math::lemma_log2_small(c as usize);
        crate::math::lemma_log2_small(m as usize);
        crate::math::lemma_log2_small(v as usize);
        crate::math::lemma_log2_small((2 * self.width) as usize);
    }

    /// The sizes that the opening of a block comes with.
    pub proof fn lemma_opening(self, p: int)
        requires
            self.wf(),
            0 <= p < self.vars.len(),
        ensures
            log2_up(self.vars[p].len()) <= self.nq(),
            self.vars[p].len() >= 1,
            flat(self.vars[p]).len() == self.vars[p].len() * self.width,
            flat(self.inputs[p]).len() == self.vars[p].len() * self.width,
            pow2((log2_up(self.vars[p].len()) + self.ny() - 1) as nat) == self.vars[p].len()
                * self.width,
            self.gens.gens_pc.fits((log2_up(self.vars[p].len()) + self.ny() - 1) as nat),
            fits_gens(self.vars[p], self.gens.gens_pc),
            fits_gens(self.inputs[p], self.gens.gens_pc),
    {
        self.lemma_sizes();
        assert(self.block_fits(p));
        let n = self.vars[p].len();
        let k = log2_up(n);
        crate::math::lemma_log2_monotone(n, self.max);
        crate::prover::lemma_shape_fits(self.vars[p], n, self.width, self.gens.gens_pc);
        crate::prover::lemma_shape_fits(self.inputs[p], n, self.width, self.gens.gens_pc);
        vstd::arithmetic::power2::lemma_pow2_unfold(self.ny());
        vstd::arithmetic::power2::lemma_pow2_adds(k, (self.ny() - 1) as nat);
        assert(k + (self.ny() - 1) as nat == (k + self.ny() - 1) as nat);
        crate::math::lemma_log2_of_pow2((k + self.ny() - 1) as nat);
        crate::sparse_mlpoly::lemma_pow2_product(n, n);
    }
}

/// Opens the assignments of the blocks.
fn open_blocks(
    i: Ghost<BlockInput>,
    vars: &Vec<Committed>,
    inputs: &Vec<Committed>,
    g: Ghost<Gens>,
    nq: usize,
    rq: &Vec<Scalar>,
    ry: &Vec<Scalar>,
    gens: &R1CSGens,
    t: &mut Transcript,
    tape: &mut RandomTape,
) -> (res: (Vec<PolyEvalProof>, Vec<CompressedGroup>, Vec<Scalar>))
    requires
        i@.wf(),
        i@.gens == *gens,
        i@.nq() == nq,
        rq@.len() == nq,
        ry@.len() == i@.ny(),
        mats_of(vars@) == i@.vars,
        mats_of(inputs@) == i@.inputs,
        all_wf(vars@, g@),
        all_wf(inputs@, g@),
    ensures
        ({
            let opened = i@.openings(rq@, ry@);
            &&& (proofs(res.0@), history(*final(t)), final(tape)@) == open_all(
                gens.gens_pc@,
                opened,
                history(*old(t)),
                old(tape)@,
                opened.len(),
            )
            &&& res.1@ == opened.map_values(
                |o: Opening| commitment(seq![o.value], szero(), gens.gens_pc@.1),
            )
            &&& res.2@ == i@.full_values(rq@, ry@)
        }),
{
    let ghost opened = i@.openings(rq@, ry@);
    let ghost all_comms = opened.map_values(
        |o: Opening| commitment(seq![o.value], szero(), gens.gens_pc@.1),
    );
    let ghost all_values = i@.full_values(rq@, ry@);
    let ghost th = history(*t);
    let ghost rh = tape@;
    let mut out: Vec<PolyEvalProof> = Vec::new();
    let mut comms: Vec<CompressedGroup> = Vec::new();
    let mut values: Vec<Scalar> = Vec::new();
    let mut p: usize = 0;
    proof {
        i@.lemma_sizes();
        assert(proofs(out@) =~= Seq::<DotLog>::empty());
        assert(i@.vars.len() == vars@.len());
        assert(i@.inputs.len() == inputs@.len());
    }
    while p < vars.len()
        invariant
            p <= vars@.len(),
            i@.wf(),
            i@.ny() >= 1,
            i@.gens == *gens,
            i@.nq() == nq,
            rq@.len() == nq,
            ry@.len() == i@.ny(),
            mats_of(vars@) == i@.vars,
            mats_of(inputs@) == i@.inputs,
            i@.vars.len() == vars@.len(),
            i@.inputs.len() == inputs@.len(),
            all_wf(vars@, g@),
            all_wf(inputs@, g@),
            opened == i@.openings(rq@, ry@),
            all_comms == opened.map_values(
                |o: Opening| commitment(seq![o.value], szero(), gens.gens_pc@.1),
            ),
            all_values == i@.full_values(rq@, ry@),
            out@.len() == p,
            comms@ == all_comms.take(p as int),
            values@ == all_values.take(p as int),
            (proofs(out@), history(*t), tape@) == open_all(
                gens.gens_pc@,
                opened,
                th,
                rh,
                p as nat,
            ),
        decreases vars@.len() - p,
    {
        proof {
            i@.lemma_opening(p as int);
            assert(i@.vars[p as int] == vars@[p as int].mat());
            assert(i@.inputs[p as int] == inputs@[p as int].mat());
            assert(vars@[p as int].wf(g@));
            assert(inputs@[p as int].wf(g@));
        }
        let copies = log_2(vars[p].rows.len());
        let short = nq - copies;
        let z = mix(vars[p].poly.values(), inputs[p].poly.values(), &ry[0]);
        let tail = part(rq, short, rq.len());
        let rest = part(ry, 1, ry.len());
        let point = concat(&tail, &rest);
        proof {
            assert(tail@ =~= rq@.skip(short as int));
            assert(rest@ =~= ry@.skip(1));
        }
        let poly = DensePolynomial::new(z);
        let value = poly.evaluate(&point);
        assert(opened[p as int] == i@.opening(rq@, ry@, p as int));
        let comm = open_next(
            &poly,
            &point,
            &value,
            &gens.gens_pc,
            &mut out,
            t,
            tape,
            Ghost(opened),
            Ghost(th),
            Ghost(rh),
        );
        comms.push(comm);
        values.push(damp(&value, rq, short));
        p += 1;
        assert(comms@ =~= all_comms.take(p as int));
        assert(values@ =~= all_values.take(p as int));
    }
    assert(comms@ =~= all_comms);
    assert(values@ =~= all_values);
    (out, comms, values)
}

/// The first sum-check over blocks, with its weights.
fn blocks_phase_one(
    i: Ghost<BlockInput>,
    inst: &R1CSInstance,
    z: &Vec<Vec<Vec<Scalar>>>,
    z_len: usize,
    np: usize,
    nq: usize,
    nx: usize,
    gens: &R1CSSumcheckGens,
    t: &mut Transcript,
    tape: &mut RandomTape,
) -> (res: (ZKSumcheckInstanceProof, Vec<Scalar>, Vec<Scalar>, Scalar))
    requires
        i@.wf(),
        i@.inst == inst@,
        i@.gens.gens_sc == *gens,
        z_len == 2 * i@.width,
        np == i@.np(),
        nq == i@.nq(),
        nx == i@.nx(),
        mats(z@) == i@.z(),
        forall|p: int| 0 <= p < z@.len() ==> all_wide(rows((#[trigger] z@[p])@), z_len as nat),
    ensures
        ({
            let (out, ts) = i@.first_check(history(*old(t)), old(tape)@);
            &&& res.0@ == out.messages()
            &&& res.1@ == out.r
            &&& res.2@ == leftovers(ts)
            &&& res.3 == out.blind
            &&& history(*final(t)) == out.th
            &&& final(tape)@ == out.rh
        }),
        res.1@.len() == nx + nq + np,
        res.2@.len() == 4,
{
    proof {
        i@.lemma_sizes();
        assert(mats(z@).len() == z@.len());
        lemma_pow2_le(i@.nx(), i@.nx() + i@.nq() + i@.np());
        lemma_pow2_le(i@.np(), i@.nx() + i@.nq() + i@.np());
    }
    let tau_p = challenge_vector(t, "challenge_tau_p", np);
    let tau_q = challenge_vector(t, "challenge_tau_q", nq);
    let tau_x = challenge_vector(t, "challenge_tau_x", nx);
    let tp = EqPolynomial::new(tau_p).evals();
    let tq = EqPolynomial::new(tau_q).evals();
    let tx = EqPolynomial::new(tau_x).evals();
    let num_cons = inst.get_num_cons();
    let left = inst.left();
    let right = inst.right();
    let products = inst.products();
    proof {
        assert(matrices(left@).len() == left@.len());
        assert(matrices(right@).len() == right@.len());
        assert(matrices(products@).len() == products@.len());
    }
    let az = product_table(left, num_cons, z, z_len, nq);
    let bz = product_table(right, num_cons, z, z_len, nq);
    let cz = product_table(products, num_cons, z, z_len, nq);
    R1CSProof::block_prove_phase_one(nx + nq + np, &tp, &tq, &tx, az, bz, cz, gens, t, tape)
}

/// A smaller exponent gives no larger power.
proof fn lemma_pow2_le(a: nat, b: nat)
    requires
        a <= b,
    ensures
        pow2(a) <= pow2(b),
{
    if a < b {
        vstd::arithmetic::power2::lemma_pow2_strictly_increases(a, b);
    }
}

/// The tables of the second sum-check over blocks.
fn blocks_second_tables(
    i: Ghost<BlockInput>,
    inst: &R1CSInstance,
    z: &Vec<Vec<Vec<Scalar>>>,
    z_len: usize,
    nx: usize,
    nq: usize,
    r: &Vec<Scalar>,
    ra: &Scalar,
    rb: &Scalar,
    rc: &Scalar,
) -> (res: (Vec<Scalar>, Vec<Scalar>, Vec<Scalar>))
    requires
        i@.wf(),
        i@.inst == inst@,
        z_len == 2 * i@.width,
        nq == i@.nq(),
        nx == i@.nx(),
        r@.len() == i@.nx() + i@.nq() + i@.np(),
        mats(z@) == i@.z(),
        forall|p: int| 0 <= p < z@.len() ==> all_wide(rows((#[trigger] z@[p])@), z_len as nat),
        forall|p: int| 0 <= p < z@.len() ==> (#[trigger] z@[p])@.len() <= i@.max,
    ensures
        seq![res.0@, res.1@, res.2@] == i@.second_tables(r@, *ra, *rb, *rc),
        res.0@.len() == pow2(i@.np() + i@.ny()),
        res.1@.len() == pow2(i@.np() + i@.ny()),
        res.2@.len() == pow2(i@.np() + i@.ny()),
{
    proof {
        i@.lemma_sizes();
        lemma_pow2_le(i@.nx(), i@.nx() + i@.nq() + i@.np());
        lemma_pow2_le(i@.np(), i@.np() + i@.ny());
        lemma_double(i@.width, i@.vars.len());
        assert(mats(z@).len() == z@.len());
    }
    let rx = part(r, 0, nx);
    let rq_rev = part(r, nx, nx + nq);
    let rp = part(r, nx + nq, r.len());
    proof {
        assert(rx@ =~= r@.take(nx as int));
        assert(rq_rev@ =~= i@.copy_part(r@));
        assert(rp@ =~= r@.skip(nx + nq));
    }
    let ex = EqPolynomial::new(rx).evals();
    let eq_q = EqPolynomial::new(reverse(&rq_rev)).evals();
    let eq_p = EqPolynomial::new(rp).evals();
    let (ta, tb, tc) = (
        column_table_of(inst.left(), &ex, z_len),
        column_table_of(inst.right(), &ex, z_len),
        column_table_of(inst.products(), &ex, z_len),
    );
    proof {
        lemma_column_table_len(inst@.a, ex@, z_len as nat);
        lemma_column_table_len(inst@.b, ex@, z_len as nat);
        lemma_column_table_len(inst@.c, ex@, z_len as nat);
        lemma_stretched_len(eq_p@, z_len as nat);
    }
    let abc = weigh_three(ra, rb, rc, &ta, &tb, &tc);
    let zt = bind_blocks(z, &eq_q, z_len);
    let et = stretch(&eq_p, z_len);
    assert(seq![zt@, abc@, et@] =~= i@.second_tables(r@, *ra, *rb, *rc));
    (zt, abc, et)
}

/// What the two sum-checks over blocks give.
struct BlockChecks {
    sc1: ZKSumcheckInstanceProof,
    r1: Vec<Scalar>,
    claims: Claims,
    sc2: ZKSumcheckInstanceProof,
    r2: Vec<Scalar>,
    left2: Vec<Scalar>,
    blind2: Scalar,
}

/// The assignments of the copies of blocks.
fn block_assignments(
    i: Ghost<BlockInput>,
    vars: &Vec<Committed>,
    inputs: &Vec<Committed>,
    g: Ghost<Gens>,
) -> (z: Vec<Vec<Vec<Scalar>>>)
    requires
        i@.wf(),
        mats_of(vars@) == i@.vars,
        mats_of(inputs@) == i@.inputs,
        all_wf(vars@, g@),
        all_wf(inputs@, g@),
    ensures
        mats(z@) == i@.z(),
        forall|p: int| 0 <= p < z@.len() ==> all_wide(rows((#[trigger] z@[p])@), 2 * i@.width),
        forall|p: int| 0 <= p < z@.len() ==> (#[trigger] z@[p])@.len() <= i@.max,
{
    proof {
        assert(i@.vars.len() == vars@.len());
        assert(i@.inputs.len() == inputs@.len());
        assert forall|p: int| 0 <= p < vars@.len() implies (#[trigger] vars@[p]).mat().len()
            <= inputs@[p].mat().len() by {
            assert(i@.block_fits(p));
            assert(i@.vars[p] == vars@[p].mat());
            assert(i@.inputs[p] == inputs@[p].mat());
        }
    }
    let z = join_blocks(vars, inputs);
    proof {
        assert(mats(z@).len() == z@.len());
        assert forall|p: int| 0 <= p < z@.len() implies all_wide(
            rows((#[trigger] z@[p])@),
            2 * i@.width,
        ) && z@[p]@.len() <= i@.max by {
            assert(i@.block_fits(p));
            assert(mats(z@)[p] == rows(z@[p]@));
            assert(rows(z@[p]@).len() == z@[p]@.len());
        }
    }
    z
}

/// The two sum-checks over blocks, and the step between them.
fn check_blocks(
    i: Ghost<BlockInput>,
    inst: &R1CSInstance,
    z: &Vec<Vec<Vec<Scalar>>>,
    z_len: usize,
    np: usize,
    nq: usize,
    nx: usize,
    ny: usize,
    gens: &R1CSSumcheckGens,
    t: &mut Transcript,
    tape: &mut RandomTape,
) -> (res: BlockChecks)
    requires
        i@.wf(),
        i@.inst == inst@,
        i@.gens.gens_sc == *gens,
        z_len == 2 * i@.width,
        np == i@.np(),
        nq == i@.nq(),
        nx == i@.nx(),
        ny == i@.ny(),
        mats(z@) == i@.z(),
        forall|p: int| 0 <= p < z@.len() ==> all_wide(rows((#[trigger] z@[p])@), z_len as nat),
        forall|p: int| 0 <= p < z@.len() ==> (#[trigger] z@[p])@.len() <= i@.max,
    ensures
        ({
            let (h, rh) = (history(*old(t)), old(tape)@);
            let s1 = i@.first_check(h, rh).0;
            let (s2, t2) = i@.second_check(h, rh);
            &&& res.sc1@ == s1.messages()
            &&& res.r1@ == s1.r
            &&& res.claims == i@.middle(h, rh).claims
            &&& res.sc2@ == s2.messages()
            &&& res.r2@ == s2.r
            &&& res.left2@ == leftovers(t2)
            &&& res.blind2 == s2.blind
            &&& history(*final(t)) == s2.th
            &&& final(tape)@ == s2.rh
        }),
        res.r1@.len() == nx + nq + np,
        res.r2@.len() == np + ny,
        res.left2@.len() == 3,
{
    proof {
        i@.lemma_sizes();
    }
    let (sc1, r1, left, blind1) = blocks_phase_one(
        i,
        inst,
        z,
        z_len,
        np,
        nq,
        nx,
        gens,
        t,
        tape,
    );
    let mid = prove_middle(
        gens,
        &left[0],
        &left[1],
        &left[2],
        &left[3],
        &blind1,
        t,
        tape,
    );
    let (zt, abc, et) = blocks_second_tables(
        i,
        inst,
        z,
        z_len,
        nx,
        nq,
        &r1,
        &mid.ra,
        &mid.rb,
        &mid.rc,
    );
    let (sc2, r2, left2, blind2) = R1CSProof::block_prove_phase_two(
        np + ny,
        &mid.claim,
        &mid.blind,
        zt,
        abc,
        et,
        gens,
        t,
        tape,
    );
    BlockChecks { sc1, r1, claims: mid.claims, sc2, r2, left2, blind2 }
}

/// What the proof about blocks gives.
struct BlockDone {
    proof: R1CSProofBlock,
    rp: Vec<Scalar>,
    rq_rev: Vec<Scalar>,
    rx: Vec<Scalar>,
    ry: Vec<Scalar>,
}

/// Proves that blocks satisfy their constraints.
fn prove_blocks(
    i: Ghost<BlockInput>,
    inst: &R1CSInstance,
    vars: &Vec<Committed>,
    inputs: &Vec<Committed>,
    max: usize,
    width: usize,
    gens: &R1CSGens,
    t: &mut Transcript,
    tape: &mut RandomTape,
) -> (res: BlockDone)
    requires
        i@.wf(),
        i@.inst == inst@,
        i@.gens == *gens,
        i@.max == max,
        i@.width == width,
        mats_of(vars@) == i@.vars,
        mats_of(inputs@) == i@.inputs,
        all_wf(vars@, gens.gens_pc@.0),
        all_wf(inputs@, gens.gens_pc@.0),
    ensures
        (BlockOutcome {
            proof: res.proof@,
            rp: res.rp@,
            rq_rev: res.rq_rev@,
            rx: res.rx@,
            ry: res.ry@,
            th: history(*final(t)),
            rh: final(tape)@,
        }) == i@.prove(history(*old(t)), old(tape)@),
{
    proof {
        reveal(BlockInput::prove);
        i@.lemma_sizes();
        assert(i@.vars.len() == vars@.len());
        lemma_double(i@.width, i@.vars.len());
    }
    let z_len: usize = 2 * width;
    let z = block_assignments(i, vars, inputs, Ghost(gens.gens_pc@.0));
    let num_cons = inst.get_num_cons();
    assert(num_cons != 0);
    let np = log_2(vars.len());
    let nq = log_2(max);
    let nx = log_2(num_cons);
    let ny = log_2(z_len);
    let c = check_blocks(i, inst, &z, z_len, np, nq, nx, ny, &gens.gens_sc, t, tape);
    let rx = part(&c.r1, 0, nx);
    let rq_rev = part(&c.r1, nx, nx + nq);
    let rq = reverse(&rq_rev);
    let rp = part(&c.r2, 0, np);
    let ry = part(&c.r2, np, c.r2.len());
    proof {
        assert(rx@ =~= c.r1@.take(nx as int));
        assert(rq_rev@ =~= i@.copy_part(c.r1@));
        assert(rp@ =~= c.r2@.take(np as int));
        assert(ry@ =~= c.r2@.skip(np as int));
    }
    let (evals, comm_list, values) = open_blocks(
        i,
        vars,
        inputs,
        Ghost(gens.gens_pc@.0),
        nq,
        &rq,
        &ry,
        gens,
        t,
        tape,
    );
    let value = DensePolynomial::new(values).evaluate(&rp);
    let pc1 = &gens.gens_pc.gens.gens_1;
    let comm = pc1.commit_one(&value, &Scalar::zero());
    let post = c.left2[0].times(&c.left2[1]).times(&c.left2[2]);
    let eq2 = EqualityProof::prove(pc1, t, tape, &post, &Scalar::zero(), &post, &c.blind2);
    BlockDone {
        proof: R1CSProofBlock {
            sc_proof_phase1: c.sc1,
            claims_phase2: c.claims,
            sc_proof_phase2: c.sc2,
            comm_vars_at_ry_list: comm_list,
            comm_vars_at_ry: comm,
            proof_eval_vars_at_ry_list: evals,
            proof_eq_sc_phase2: eq2,
        },
        rp,
        rq_rev,
        rx,
        ry,
    }
}

proof fn lemma_double(w: nat, n: nat)
    requires
        n >= 1,
    ensures
        2 * w <= n * (2 * w),
{
    assert(2 * w <= n * (2 * w)) by (nonlinear_arith)
        requires
            n >= 1,
    ;
}

proof fn lemma_column_table_len(m: Seq<Seq<Entry>>, w: Seq<Scalar>, z_len: nat)
    ensures
        column_table(m, w, z_len).len() == m.len() * z_len,
{
    let parts = m.map_values(|x: Seq<Entry>| crate::sparse::vector_product(x, w, z_len));
    crate::vectors::lemma_uniform_len(parts, z_len);
}

proof fn lemma_stretched_len(s: Seq<Scalar>, n: nat)
    ensures
        stretched(s, n).len() == s.len() * n,
{
    crate::vectors::lemma_uniform_len(s.map_values(|x: Scalar| repeated(x, n)), n);
}

/// What is proved of an execution.
pub struct ConsisInput {
    /// The inputs and outputs of the executed blocks.
    pub executed: Seq<Seq<Scalar>>,
    /// The number of values of an executed block.
    pub width: nat,
    /// The constraints whose first matrices are multiplied with the
    /// execution.
    pub block_inst: R1CS,
    /// The constraints of the execution.
    pub inst: R1CS,
    /// The generators.
    pub gens: R1CSGens,
}

/// What remains when the first `k` coordinates are set.
pub open spec fn bound_front(z: Seq<Scalar>, r: Seq<Scalar>, k: nat) -> Seq<Scalar>
    decreases k,
{
    if k == 0 {
        z
    } else {
        bound_top(bound_front(z, r, (k - 1) as nat), r[k - 1])
    }
}

/// What the proof about an execution ends with.
#[verifier::ext_equal]
pub struct ConsisOutcome {
    /// The proof.
    pub proof: ConsisView,
    /// The coordinates of the executed block.
    pub rq: Seq<Scalar>,
    /// The coordinates of the row.
    pub rx: Seq<Scalar>,
    /// The coordinates of the column.
    pub ry: Seq<Scalar>,
    /// The transcript.
    pub th: History,
    /// The tape.
    pub rh: History,
}

impl ConsisInput {
    /// The number of coordinates of the executed block.
    pub open spec fn nq(self) -> nat {
        log2_up(self.executed.len())
    }

    /// The number of coordinates of the row.
    pub open spec fn nx(self) -> nat {
        log2_up(self.inst.num_cons)
    }

    /// The number of coordinates of the column.
    pub open spec fn ny(self) -> nat {
        log2_up(2 * self.width)
    }

    /// The values at the positions after the last one, by their last digits.
    pub open spec fn beyond(self) -> Seq<Scalar> {
        let size = self.executed.len() * self.width;
        Seq::new(
            self.width,
            |j: int| evaluation(flat(self.executed), bits((size + j) as nat, log2_up(size))),
        )
    }

    /// An executed block and the next one.
    pub open spec fn pair(self, i: int) -> Seq<Scalar> {
        if i < self.executed.len() - 1 {
            self.executed[i] + self.executed[i + 1]
        } else {
            self.executed[i] + self.beyond()
        }
    }

    /// Each executed block with the next one.
    pub open spec fn pairs(self) -> Seq<Seq<Scalar>> {
        Seq::new(self.executed.len(), |i: int| self.pair(i))
    }

    /// The table of the products of a matrix with the pairs.
    pub open spec fn products(self, m: Seq<Entry>) -> Seq<Scalar> {
        flat(products_of(m, self.inst.num_cons, self.pairs()))
    }

    /// The execution mixed with itself one block later, the first after the
    /// last.
    pub open spec fn combined(self, r: Scalar) -> Seq<Scalar> {
        let e = flat(self.executed);
        mixed(e, e.skip(self.width as int) + e.take(self.width as int), r)
    }

    /// The tables of the first sum-check.
    pub open spec fn first_tables(self, th: History) -> Seq<Seq<Scalar>> {
        seq![
            eq_evals(challenges(th, "challenge_tau"@, self.nq() + self.nx()).0),
            self.products(self.block_inst.a[0]),
            self.products(self.block_inst.b[0]),
            self.products(self.block_inst.c[0]),
        ]
    }

    /// The first sum-check: what the constraints miss, weighted, adds up to
    /// zero.
    pub open spec fn first_check(self, th: History, rh: History) -> (Rounds, Seq<Seq<Scalar>>) {
        sumcheck_prove(
            szero(),
            szero(),
            self.nq() + self.nx(),
            self.first_tables(th),
            Comb::Additive,
            self.gens.gens_sc.gens_1@,
            self.gens.gens_sc.gens_4@,
            challenges(th, "challenge_tau"@, self.nq() + self.nx()).1,
            rh,
        )
    }

    /// The step between the two sum-checks.
    pub open spec fn middle(self, th: History, rh: History) -> Middle {
        let (s1, t1) = self.first_check(th, rh);
        let left = leftovers(t1);
        middle_prove(
            self.gens.gens_sc.gens_1@,
            left[0],
            left[1],
            left[2],
            left[3],
            s1.blind,
            s1.th,
            s1.rh,
        )
    }

    /// The tables of the second sum-check, under the challenges of the first
    /// one and the weights of its claims.
    pub open spec fn second_tables(
        self,
        r: Seq<Scalar>,
        ra: Scalar,
        rb: Scalar,
        rc: Scalar,
    ) -> Seq<Seq<Scalar>> {
        let z_len = 2 * self.width;
        let ex = eq_evals(r.skip(self.nq() as int));
        seq![
            bound_front(flat(self.pairs()), r.take(self.nq() as int), self.nq()),
            weighted_three(
                ra,
                rb,
                rc,
                column_table(self.inst.a, ex, z_len),
                column_table(self.inst.b, ex, z_len),
                column_table(self.inst.c, ex, z_len),
            ),
        ]
    }

    /// The second sum-check: the execution meets the joint claim.
    pub open spec fn second_check(self, th: History, rh: History) -> (Rounds, Seq<Seq<Scalar>>) {
        let mid = self.middle(th, rh);
        sumcheck_prove(
            mid.claim,
            mid.blind,
            self.ny(),
            self.second_tables(self.first_check(th, rh).0.r, mid.ra, mid.rb, mid.rc),
            Comb::Quad,
            self.gens.gens_sc.gens_1@,
            self.gens.gens_sc.gens_3@,
            mid.th,
            mid.rh,
        )
    }

    /// The proof about the execution, from a transcript and a tape.
    #[verifier::opaque]
    pub open spec fn prove(self, th: History, rh: History) -> ConsisOutcome {
        let (s1, t1) = self.first_check(th, rh);
        let mid = self.middle(th, rh);
        let rq = s1.r.take(self.nq() as int);
        let rx = s1.r.skip(self.nq() as int);
        let (s2, t2) = self.second_check(th, rh);
        let ry = s2.r;
        let z = self.combined(ry[0]);
        let point = rq + ry.skip(1);
        let value = evaluation(z, point);
        let pc = self.gens.gens_pc@;
        let out = plain_prove(pc, z, point, value, s2.th, s2.rh);
        let left2 = leftovers(t2);
        let post = smul(left2[0], left2[1]);
        let (eq2, h3, rh3) = equality_prove(pc.1, post, szero(), post, s2.blind, out.th, out.rh);
        ConsisOutcome {
            proof: ConsisView {
                sc1: s1.messages(),
                claims: mid.claims,
                sc2: s2.messages(),
                comm: commitment(seq![value], szero(), pc.1),
                eval: out.proof,
                eq2,
            },
            rq,
            rx,
            ry,
            th: h3,
            rh: rh3,
        }
    }

    /// The sizes agree, and the generators suffice.
    pub open spec fn wf(self) -> bool {
        let z_len = 2 * self.width;
        &&& self.gens.wf()
        &&& is_pow2(self.executed.len())
        &&& is_pow2(self.width)
        &&& is_pow2(self.inst.num_cons)
        &&& shaped(self.executed, self.executed.len(), self.width)
        &&& self.block_inst.balanced()
        &&& self.block_inst.a.len() >= 1
        &&& fits_in(self.block_inst.a[0], self.inst.num_cons, z_len)
        &&& fits_in(self.block_inst.b[0], self.inst.num_cons, z_len)
        &&& fits_in(self.block_inst.c[0], self.inst.num_cons, z_len)
        &&& self.inst.in_range()
        &&& self.inst.num_vars == z_len
        &&& self.inst.a.len() == 1
        &&& self.nq() + self.nx() >= 1
        &&& self.executed.len() * self.inst.num_cons <= usize::MAX
        &&& self.executed.len() * z_len <= usize::MAX
        &&& self.gens.gens_pc.fits(log2_up(self.executed.len() * self.width))
    }

    /// The sizes that the sum-checks over the execution come with.
    pub proof fn lemma_sizes(self)
        requires
            self.wf(),
        ensures
            self.executed.len() >= 1,
            self.inst.num_cons >= 1,
            self.width >= 1,
            self.ny() >= 1,
            self.nq() <= 64,
            self.nx() <= 64,
            self.ny() <= 64,
            pow2(self.nq()) == self.executed.len(),
            pow2(self.nx()) == self.inst.num_cons,
            pow2(self.ny()) == 2 * self.width,
            pow2(self.nq() + self.nx()) == self.executed.len() * self.inst.num_cons,
            pow2(self.nq() + self.ny()) == self.executed.len() * (2 * self.width),
            pow2((self.nq() + self.ny() - 1) as nat) == self.executed.len() * self.width,
            log2_up(self.executed.len() * self.width) == self.nq() + self.ny() - 1,
            flat(self.executed).len() == self.executed.len() * self.width,
            2 * self.width <= usize::MAX,
            self.executed.len() * self.width + self.width <= usize::MAX,
            self.width <= self.executed.len() * self.width,
    {
        let (n, w, c) = (self.executed.len(), self.width, self.inst.num_cons);
        crate::sparse_mlpoly::lemma_pow2_product(w, w);
        crate::sparse_mlpoly::lemma_pow2_product(n, c);
        crate::sparse_mlpoly::lemma_pow2_product(c, n);
        vstd::arithmetic::power2::lemma_pow2_adds(self.nq(), self.nx());
        vstd::arithmetic::power2::lemma_pow2_adds(self.nq(), self.ny());
        if self.ny() == 0 {
            vstd::arithmetic::power2::lemma2_to64();
        }
        vstd::arithmetic::power2::lemma_pow2_unfold(self.ny());
        vstd::arithmetic::power2::lemma_pow2_adds(self.nq(), (self.ny() - 1) as nat);
        assert(self.nq() + (self.ny() - 1) as nat == (self.nq() + self.ny() - 1) as nat);
        crate::math::lemma_log2_of_pow2((self.nq() + self.ny() - 1) as nat);
        crate::vectors::lemma_uniform_len(self.executed, w);
        lemma_double(w, n);
        assert(n <= n * c && c <= n * c && n * w + w <= n * (2 * w) && w <= n * w)
            by (nonlinear_arith)
            requires
                n >= 1,
                c >= 1,
                w >= 1,
        ;
        crate::math::lemma_log2_small(n as usize);
        crate::math::lemma_log2_small(c as usize);
        crate::math::lemma_log2_small((2 * w) as usize);
    }
}

/// Sets the first `k` coordinates.
fn bind_front(z: Vec<Scalar>, r: &Vec<Scalar>, k: usize) -> (v: Vec<Scalar>)
    requires
        k <= r@.len(),
    ensures
        v@ == bound_front(z@, r@, k as nat),
{
    let ghost start = z@;
    let mut p = DensePolynomial::new(z);
    let mut i: usize = 0;
    while i < k
        invariant
            i <= k <= r@.len(),
            p@ == bound_front(start, r@, i as nat),
        decreases k - i,
    {
        p.bound_poly_var_top(&r[i]);
        i += 1;
    }
    copy_of(p.values())
}

proof fn lemma_bound_front_len(z: Seq<Scalar>, r: Seq<Scalar>, k: nat, n: nat)
    requires
        z.len() == pow2(k + n),
    ensures
        bound_front(z, r, k).len() == pow2(n),
    decreases k,
{
    if k > 0 {
        lemma_bound_front_len(z, r, (k - 1) as nat, n + 1);
        vstd::arithmetic::power2::lemma_pow2_unfold(n + 1);
    }
}

/// Each executed block with the next one.
fn pair_up(i: Ghost<ConsisInput>, exec: &Committed, width: usize) -> (r: Vec<Vec<Scalar>>)
    requires
        i@.wf(),
        exec.mat() == i@.executed,
        exec.poly@ == flat(i@.executed),
        i@.width == width,
    ensures
        rows(r@) == i@.pairs(),
        all_wide(i@.pairs(), 2 * width as nat),
{
    proof {
        i@.lemma_sizes();
    }
    let n: usize = exec.rows.len();
    let size: usize = n * width;
    let len = log_2(size);
    let mut beyond: Vec<Scalar> = Vec::new();
    let mut j: usize = 0;
    while j < width
        invariant
            j <= width,
            n == i@.executed.len(),
            size == n * width,
            size + width <= usize::MAX,
            width == i@.width,
            len == log2_up(size as nat),
            exec.poly@ == flat(i@.executed),
            exec.poly@.len() == size,
            size == pow2(len as nat),
            beyond@ == i@.beyond().take(j as int),
        decreases width - j,
    {
        let point = to_bin_array(size + j, len);
        beyond.push(exec.poly.evaluate(&point));
        j += 1;
        assert(beyond@ =~= i@.beyond().take(j as int));
    }
    assert(beyond@ =~= i@.beyond());
    let mut r: Vec<Vec<Scalar>> = Vec::new();
    let mut q: usize = 0;
    while q < n
        invariant
            q <= n,
            n == i@.executed.len(),
            n == exec.rows@.len(),
            exec.mat() == i@.executed,
            beyond@ == i@.beyond(),
            r@.len() == q,
            forall|j: int| 0 <= j < q ==> (#[trigger] r@[j])@ == i@.pair(j),
        decreases n - q,
    {
        assert(i@.executed[q as int] == exec.rows@[q as int]@);
        let row = if q < n - 1 {
            assert(i@.executed[q + 1] == exec.rows@[q + 1]@);
            concat(&exec.rows[q], &exec.rows[q + 1])
        } else {
            concat(&exec.rows[q], &beyond)
        };
        r.push(row);
        q += 1;
    }
    proof {
        assert(rows(r@) =~= i@.pairs());
        assert forall|k: int| 0 <= k < i@.pairs().len() implies (#[trigger] i@.pairs()[k]).len()
            == 2 * width by {
            assert(i@.executed[k].len() == width);
            if k < n - 1 {
                assert(i@.executed[k + 1].len() == width);
            }
        }
    }
    r
}

/// The first sum-check over an execution, with its weights.
fn execution_phase_one(
    i: Ghost<ConsisInput>,
    block_inst: &R1CSInstance,
    num_cons: usize,
    z: &Vec<Vec<Scalar>>,
    z_len: usize,
    nq: usize,
    nx: usize,
    gens: &R1CSSumcheckGens,
    t: &mut Transcript,
    tape: &mut RandomTape,
) -> (res: (ZKSumcheckInstanceProof, Vec<Scalar>, Vec<Scalar>, Scalar))
    requires
        i@.wf(),
        i@.block_inst == block_inst@,
        i@.inst.num_cons == num_cons,
        i@.gens.gens_sc == *gens,
        z_len == 2 * i@.width,
        nq == i@.nq(),
        nx == i@.nx(),
        rows(z@) == i@.pairs(),
        all_wide(i@.pairs(), z_len as nat),
    ensures
        ({
            let (out, ts) = i@.first_check(history(*old(t)), old(tape)@);
            &&& res.0@ == out.messages()
            &&& res.1@ == out.r
            &&& res.2@ == leftovers(ts)
            &&& res.3 == out.blind
            &&& history(*final(t)) == out.th
            &&& final(tape)@ == out.rh
        }),
        res.1@.len() == nq + nx,
        res.2@.len() == 4,
{
    proof {
        i@.lemma_sizes();
    }
    let tau = challenge_vector(t, "challenge_tau", nq + nx);
    let tt = EqPolynomial::new(tau).evals();
    let (left_m, right_m, prod_m) = (block_inst.left(), block_inst.right(), block_inst.products());
    proof {
        assert(matrices(left_m@).len() == left_m@.len());
        assert(matrices(right_m@).len() == right_m@.len());
        assert(matrices(prod_m@).len() == prod_m@.len());
        assert(matrices(left_m@)[0] == left_m@[0]@);
        assert(matrices(right_m@)[0] == right_m@[0]@);
        assert(matrices(prod_m@)[0] == prod_m@[0]@);
        lemma_products_len(i@, i@.block_inst.a[0]);
        lemma_products_len(i@, i@.block_inst.b[0]);
        lemma_products_len(i@, i@.block_inst.c[0]);
    }
    let az = flatten(&multiply_all(&left_m[0], num_cons, z, z_len));
    let bz = flatten(&multiply_all(&right_m[0], num_cons, z, z_len));
    let cz = flatten(&multiply_all(&prod_m[0], num_cons, z, z_len));
    R1CSProof::consis_prove_phase_one(nq + nx, tt, az, bz, cz, gens, t, tape)
}

/// The tables of the second sum-check over an execution.
fn execution_second_tables(
    i: Ghost<ConsisInput>,
    inst: &R1CSInstance,
    z: &Vec<Vec<Scalar>>,
    z_len: usize,
    nq: usize,
    r: &Vec<Scalar>,
    ra: &Scalar,
    rb: &Scalar,
    rc: &Scalar,
) -> (res: (Vec<Scalar>, Vec<Scalar>))
    requires
        i@.wf(),
        i@.inst == inst@,
        z_len == 2 * i@.width,
        nq == i@.nq(),
        r@.len() == i@.nq() + i@.nx(),
        rows(z@) == i@.pairs(),
        all_wide(i@.pairs(), z_len as nat),
    ensures
        seq![res.0@, res.1@] == i@.second_tables(r@, *ra, *rb, *rc),
        res.0@.len() == pow2(i@.ny()),
        res.1@.len() == pow2(i@.ny()),
{
    proof {
        i@.lemma_sizes();
        lemma_pow2_le(i@.nx(), i@.nq() + i@.nx());
        assert(rows(z@).len() == z@.len());
    }
    let rq = part(r, 0, nq);
    let rx = part(r, nq, r.len());
    proof {
        assert(rq@ =~= r@.take(nq as int));
        assert(rx@ =~= r@.skip(nq as int));
    }
    let ex = EqPolynomial::new(rx).evals();
    let (ta, tb, tc) = (
        column_table_of(inst.left(), &ex, z_len),
        column_table_of(inst.right(), &ex, z_len),
        column_table_of(inst.products(), &ex, z_len),
    );
    proof {
        lemma_column_table_len(inst@.a, ex@, z_len as nat);
        lemma_column_table_len(inst@.b, ex@, z_len as nat);
        lemma_column_table_len(inst@.c, ex@, z_len as nat);
        crate::vectors::lemma_uniform_len(i@.pairs(), z_len as nat);
        lemma_bound_front_len(flat(i@.pairs()), rq@, i@.nq(), i@.ny());
    }
    let abc = weigh_three(ra, rb, rc, &ta, &tb, &tc);
    let zt = bind_front(flatten(z), &rq, nq);
    assert(seq![zt@, abc@] =~= i@.second_tables(r@, *ra, *rb, *rc));
    (zt, abc)
}

/// What the two sum-checks over an execution give.
struct ConsisChecks {
    sc1: ZKSumcheckInstanceProof,
    r1: Vec<Scalar>,
    claims: Claims,
    sc2: ZKSumcheckInstanceProof,
    r2: Vec<Scalar>,
    left2: Vec<Scalar>,
    blind2: Scalar,
}

/// The two sum-checks over an execution, and the step between them.
fn check_execution(
    i: Ghost<ConsisInput>,
    block_inst: &R1CSInstance,
    inst: &R1CSInstance,
    z: &Vec<Vec<Scalar>>,
    z_len: usize,
    nq: usize,
    nx: usize,
    ny: usize,
    gens: &R1CSSumcheckGens,
    t: &mut Transcript,
    tape: &mut RandomTape,
) -> (res: ConsisChecks)
    requires
        i@.wf(),
        i@.block_inst == block_inst@,
        i@.inst == inst@,
        i@.gens.gens_sc == *gens,
        z_len == 2 * i@.width,
        nq == i@.nq(),
        nx == i@.nx(),
        ny == i@.ny(),
        rows(z@) == i@.pairs(),
        all_wide(i@.pairs(), z_len as nat),
    ensures
        ({
            let (h, rh) = (history(*old(t)), old(tape)@);
            let s1 = i@.first_check(h, rh).0;
            let (s2, t2) = i@.second_check(h, rh);
            &&& res.sc1@ == s1.messages()
            &&& res.r1@ == s1.r
            &&& res.claims == i@.middle(h, rh).claims
            &&& res.sc2@ == s2.messages()
            &&& res.r2@ == s2.r
            &&& res.left2@ == leftovers(t2)
            &&& res.blind2 == s2.blind
            &&& history(*final(t)) == s2.th
            &&& final(tape)@ == s2.rh
        }),
        res.r1@.len() == nq + nx,
        res.r2@.len() == ny,
        res.left2@.len() == 2,
{
    proof {
        i@.lemma_sizes();
    }
    let num_cons = inst.get_num_cons();
    let (sc1, r1, left, blind1) = execution_phase_one(
        i,
        block_inst,
        num_cons,
        z,
        z_len,
        nq,
        nx,
        gens,
        t,
        tape,
    );
    let mid = prove_middle(
        gens,
        &left[0],
        &left[1],
        &left[2],
        &left[3],
        &blind1,
        t,
        tape,
    );
    let (zt, abc) = execution_second_tables(
        i,
        inst,
        z,
        z_len,
        nq,
        &r1,
        &mid.ra,
        &mid.rb,
        &mid.rc,
    );
    let (sc2, r2, left2, blind2) = R1CSProof::consis_prove_phase_two(
        ny,
        &mid.claim,
        &mid.blind,
        zt,
        abc,
        gens,
        t,
        tape,
    );
    ConsisChecks { sc1, r1, claims: mid.claims, sc2, r2, left2, blind2 }
}

/// What the proof about an execution gives.
struct ConsisDone {
    proof: R1CSProofConsis,
    rq: Vec<Scalar>,
    rx: Vec<Scalar>,
    ry: Vec<Scalar>,
}

/// Proves that an execution satisfies its constraints.
fn prove_execution(
    i: Ghost<ConsisInput>,
    block_inst: &R1CSInstance,
    inst: &R1CSInstance,
    exec: &Committed,
    width: usize,
    gens: &R1CSGens,
    t: &mut Transcript,
    tape: &mut RandomTape,
) -> (res: ConsisDone)
    requires
        i@.wf(),
        i@.block_inst == block_inst@,
        i@.inst == inst@,
        i@.gens == *gens,
        i@.width == width,
        exec.mat() == i@.executed,
        exec.poly@ == flat(i@.executed),
    ensures
        (ConsisOutcome {
            proof: res.proof@,
            rq: res.rq@,
            rx: res.rx@,
            ry: res.ry@,
            th: history(*final(t)),
            rh: final(tape)@,
        }) == i@.prove(history(*old(t)), old(tape)@),
{
    proof {
        reveal(ConsisInput::prove);
        i@.lemma_sizes();
    }
    let z_len: usize = 2 * width;
    let num_cons = inst.get_num_cons();
    let z = pair_up(i, exec, width);
    proof {
        assert(num_cons != 0);
        assert(rows(z@).len() == z@.len());
    }
    let nq = log_2(z.len());
    let nx = log_2(num_cons);
    let ny = log_2(z_len);
    let c = check_execution(
        i,
        block_inst,
        inst,
        &z,
        z_len,
        nq,
        nx,
        ny,
        &gens.gens_sc,
        t,
        tape,
    );
    let rq = part(&c.r1, 0, nq);
    let rx = part(&c.r1, nq, c.r1.len());
    let ry = c.r2;
    let e = exec.poly.values();
    let later = concat(&part(e, width, e.len()), &part(e, 0, width));
    let rest = part(&ry, 1, ry.len());
    proof {
        assert(rq@ =~= c.r1@.take(nq as int));
        assert(rx@ =~= c.r1@.skip(nq as int));
        assert(later@ =~= e@.skip(width as int) + e@.take(width as int));
        assert(rest@ =~= ry@.skip(1));
        reveal(plain_prove);
    }
    let combined = DensePolynomial::new(mix(e, &later, &ry[0]));
    let point = concat(&rq, &rest);
    let value = combined.evaluate(&point);
    let (eval, comm) = PolyEvalProof::prove(
        &combined,
        None,
        &point,
        &value,
        None,
        &gens.gens_pc,
        t,
        tape,
    );
    let pc1 = &gens.gens_pc.gens.gens_1;
    let post = c.left2[0].times(&c.left2[1]);
    let eq2 = EqualityProof::prove(pc1, t, tape, &post, &Scalar::zero(), &post, &c.blind2);
    ConsisDone {
        proof: R1CSProofConsis {
            sc_proof_phase1: c.sc1,
            claims_phase2: c.claims,
            sc_proof_phase2: c.sc2,
            comm_vars_at_ry: comm,
            proof_eval_vars_at_ry: eval,
            proof_eq_sc_phase2: eq2,
        },
        rq,
        rx,
        ry,
    }
}

proof fn lemma_products_len(i: ConsisInput, m: Seq<Entry>)
    ensures
        i.products(m).len() == i.executed.len() * i.inst.num_cons,
{
    crate::vectors::lemma_uniform_len(
        products_of(m, i.inst.num_cons, i.pairs()),
        i.inst.num_cons,
    );
}

/// What is proved: blocks and an execution.
pub struct R1CSStatement {
    /// The blocks.
    pub block: BlockInput,
    /// The execution.
    pub consis: ConsisInput,
}

/// What an `R1CSProof` holds.
#[verifier::ext_equal]
pub struct R1CSProofView {
    /// The commitments to the variables of the blocks.
    pub comm_vars: Seq<Seq<CompressedGroup>>,
    /// The commitments to the inputs of the blocks.
    pub comm_io: Seq<Seq<CompressedGroup>>,
    /// The commitment to the execution.
    pub comm_exec: Seq<CompressedGroup>,
    /// The proof about the blocks.
    pub block: BlockView,
    /// The proof about the execution.
    pub consis: ConsisView,
}

impl View for R1CSProof {
    type V = R1CSProofView;

    open spec fn view(&self) -> R1CSProofView {
        R1CSProofView {
            comm_vars: points_of(self.block_comm_vars_list@),
            comm_io: points_of(self.block_comm_io_list@),
            comm_exec: self.exec_comm_io@,
            block: self.block_proof@,
            consis: self.consis_proof@,
        }
    }
}

impl R1CSStatement {
    /// The history after the commitments to the assignments.
    pub open spec fn said(self, th: History) -> History {
        let g = self.block.gens.gens_pc@.0;
        said_matrix(
            said_pairs(
                named(th, "R1CS proof"),
                self.block.vars,
                self.block.inputs,
                g,
                self.block.vars.len(),
            ),
            self.consis.executed,
            self.consis.gens.gens_pc@.0,
        )
    }

    /// The proof about the blocks.
    pub open spec fn blocks(self, th: History, rh: History) -> BlockOutcome {
        self.block.prove(self.said(th), rh)
    }

    /// The proof about the execution, which follows that about the blocks.
    pub open spec fn execution(self, th: History, rh: History) -> ConsisOutcome {
        let b = self.blocks(th, rh);
        self.consis.prove(b.th, b.rh)
    }

    /// The proof.
    pub open spec fn proof_view(self, th: History, rh: History) -> R1CSProofView {
        R1CSProofView {
            comm_vars: mat_commitments(self.block.vars, self.block.gens.gens_pc@.0),
            comm_io: mat_commitments(self.block.inputs, self.block.gens.gens_pc@.0),
            comm_exec: plain_commitment(
                flat(self.consis.executed),
                self.consis.gens.gens_pc@.0,
            ),
            block: self.blocks(th, rh).proof,
            consis: self.execution(th, rh).proof,
        }
    }

    /// The sizes agree, and the generators suffice.
    pub open spec fn wf(self) -> bool {
        &&& self.block.wf()
        &&& self.consis.wf()
    }
}

fn comm_list(l: Vec<Committed>, g: Ghost<Gens>) -> (r: Vec<PolyCommitment>)
    requires
        all_wf(l@, g@),
    ensures
        points_of(r@) == mat_commitments(mats_of(l@), g@),
{
    let ghost all = l@;
    let r = take_comms(l);
    proof {
        crate::committed::lemma_comms(all, g@);
        assert(points_of(r@) =~= crate::committed::comms_of(all));
    }
    r
}

impl R1CSProof {
    /// Proves that blocks and their execution satisfy constraints. Gives the
    /// proof, and the points at which the matrices are left: of the blocks the
    /// coordinates of instance, copy (last first), row and column, of the
    /// execution those of executed block, row and column. Inputs and numbers of
    /// copies may go on behind the last block.
    pub fn prove(
        block_max_num_proofs: usize,
        block_num_proofs: &Vec<usize>,
        block_inst: &R1CSInstance,
        block_gens: &R1CSGens,
        consis_num_proofs: usize,
        consis_inst: &R1CSInstance,
        consis_gens: &R1CSGens,
        block_vars_mat: Vec<Vec<Vec<Scalar>>>,
        block_inputs_mat: Vec<Vec<Vec<Scalar>>>,
        exec_inputs: Vec<Vec<Scalar>>,
        transcript: &mut Transcript,
        random_tape: &mut RandomTape,
    ) -> (res: (R1CSProof, [Vec<Scalar>; 4], [Vec<Scalar>; 3]))
        requires
            prove_statement(
                block_max_num_proofs,
                block_inst@,
                *block_gens,
                consis_inst@,
                *consis_gens,
                mats(block_vars_mat@),
                mats(block_inputs_mat@),
                rows(exec_inputs@),
            ).wf(),
            block_inputs_mat@.len() >= block_vars_mat@.len(),
            block_num_proofs@.len() >= block_vars_mat@.len(),
            forall|p: int|
                0 <= p < block_vars_mat@.len() ==> #[trigger] block_num_proofs@[p]
                    == block_vars_mat@[p]@.len(),
            consis_num_proofs == exec_inputs@.len(),
        ensures
            ({
                let s = prove_statement(
                    block_max_num_proofs,
                    block_inst@,
                    *block_gens,
                    consis_inst@,
                    *consis_gens,
                    mats(block_vars_mat@),
                    mats(block_inputs_mat@),
                    rows(exec_inputs@),
                );
                let (th, rh) = (history(*old(transcript)), old(random_tape)@);
                let b = s.blocks(th, rh);
                let c = s.execution(th, rh);
                &&& res.0@ == s.proof_view(th, rh)
                &&& res.1@[0]@ == b.rp
                &&& res.1@[1]@ == b.rq_rev
                &&& res.1@[2]@ == b.rx
                &&& res.1@[3]@ == b.ry
                &&& res.2@[0]@ == c.rq
                &&& res.2@[1]@ == c.rx
                &&& res.2@[2]@ == c.ry
                &&& history(*final(transcript)) == c.th
                &&& final(random_tape)@ == c.rh
            }),
    {
        let ghost s = prove_statement(
            block_max_num_proofs,
            block_inst@,
            *block_gens,
            consis_inst@,
            *consis_gens,
            mats(block_vars_mat@),
            mats(block_inputs_mat@),
            rows(exec_inputs@),
        );
        proof {
            reveal_strlit("R1CS proof");
            vstd::utf8::is_ascii_chars_encode_utf8("R1CS proof"@);
            s.block.lemma_sizes();
            s.consis.lemma_sizes();
            assert forall|p: int| 0 <= p < s.block.vars.len() implies fits_gens(
                #[trigger] s.block.vars[p],
                block_gens.gens_pc,
            ) by {
                s.block.lemma_opening(p);
            }
            assert forall|p: int| 0 <= p < s.block.inputs.len() implies fits_gens(
                #[trigger] s.block.inputs[p],
                block_gens.gens_pc,
            ) by {
                s.block.lemma_opening(p);
            }
            crate::prover::lemma_shape_fits(
                s.consis.executed,
                s.consis.executed.len(),
                s.consis.width,
                consis_gens.gens_pc,
            );
            assert(s.block.block_fits(0));
            assert(s.block.vars[0][0] == block_vars_mat@[0]@[0]@);
            assert(s.consis.executed[0] == exec_inputs@[0]@);
        }
        append_protocol_name(transcript, "R1CS proof");
        let width: usize = block_vars_mat[0][0].len();
        let exec_width: usize = exec_inputs[0].len();
        let mut block_inputs_mat = block_inputs_mat;
        let ghost all_inputs = block_inputs_mat@;
        block_inputs_mat.truncate(block_vars_mat.len());
        assert(mats(block_inputs_mat@) =~= mats(all_inputs).take(block_vars_mat@.len() as int));
        let (vars, inputs) = commit_pairs(
            block_vars_mat,
            block_inputs_mat,
            &block_gens.gens_pc,
            transcript,
        );
        let executed = commit_single(exec_inputs, &consis_gens.gens_pc, transcript);
        proof {
            assert(mats_of(executed@).len() == executed@.len());
            assert(mats_of(executed@)[0] == executed@[0].mat());
            assert(executed@[0].wf(consis_gens.gens_pc@.0));
        }
        let b = prove_blocks(
            Ghost(s.block),
            block_inst,
            &vars,
            &inputs,
            block_max_num_proofs,
            width,
            block_gens,
            transcript,
            random_tape,
        );
        let c = prove_execution(
            Ghost(s.consis),
            block_inst,
            consis_inst,
            &executed[0],
            exec_width,
            consis_gens,
            transcript,
            random_tape,
        );
        let mut executed = executed;
        let ghost first = executed@[0];
        let e = executed.remove(0);
        let proof = R1CSProof {
            block_comm_vars_list: comm_list(vars, Ghost(block_gens.gens_pc@.0)),
            block_comm_io_list: comm_list(inputs, Ghost(block_gens.gens_pc@.0)),
            exec_comm_io: e.comm,
            block_proof: b.proof,
            consis_proof: c.proof,
        };
        (proof, [b.rp, b.rq_rev, b.rx, b.ry], [c.rq, c.rx, c.ry])
    }
}

/// What `R1CSProof::prove` proves.
pub open spec fn prove_statement(
    max: usize,
    block_inst: R1CS,
    block_gens: R1CSGens,
    consis_inst: R1CS,
    consis_gens: R1CSGens,
    vars: Seq<Seq<Seq<Scalar>>>,
    inputs: Seq<Seq<Seq<Scalar>>>,
    executed: Seq<Seq<Scalar>>,
) -> R1CSStatement {
    R1CSStatement {
        block: BlockInput {
            vars,
            inputs: inputs.take(vars.len() as int),
            max: max as nat,
            width: vars[0][0].len(),
            inst: block_inst,
            gens: block_gens,
        },
        consis: ConsisInput {
            executed,
            width: executed[0].len(),
            block_inst,
            inst: consis_inst,
            gens: consis_gens,
        },
    }
}

} // verus!
