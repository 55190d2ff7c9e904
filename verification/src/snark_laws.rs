//! A proof of an honest execution is accepted.
use crate::accept_laws::{
    claim_true, claims_of, io_openings, law_claims_accepted, law_openings_accepted, lemma_open_all,
    openable, opening_true, openings_invertible,
};
use crate::commitments::Gens;
use crate::committed::{mat_commitments, said_matrices, said_matrix, said_pairs};
use crate::comms::{
    lemma_said_list, lemma_said_two_lists, said_list, witness_comms, WitnessComms,
};
use crate::dense_mlpoly::evaluation;
use crate::errors::ProofVerifyError;
use crate::field::canonical_ops;
use crate::group::encodes_uniquely;
use crate::io_proofs::{claims_proved, proofs, verify_claims, IOProofsView};
use crate::jobs::{Challenges, CheckTask, EvalCheck, EvalJob, SatCheck, SatJob};
use crate::math::{lemma_log2_of_pow2, log2_up};
use crate::opening_laws::lemma_canonical_challenge;
use crate::openings::{check_all, corner, open_all};
use crate::parts::{
    part_proved, part_rp, product_gens, sat_ran, sat_sound, sized, PartProof, PartTrace, Stage,
};
use crate::poly_laws::{law_value_at_vertex, lemma_corner};
use crate::random::RandomTape;
use crate::scalar::{smul, sone, szero, Scalar};
use crate::snark::{snark_accepted, snark_proved, snark_refused, snark_shaped, SNARK};
use crate::snark_verify::{
    balanced, eval_asked, mid_claims, part_checked, part_refused, part_shaped, parts_checked,
    parts_refused, sat_asked, CheckTrace, PublicProgram, VerifierInput,
};
use crate::sparse_mlpoly::{plain_commitment, R1CSCommitment, R1CSCommitmentGens};
use crate::statement::{
    mid_openings, post_openings, product_mats, product_opening, product_values, shaped, ProverInput,
    WitnessMats, NUM_PARTS, PERM_BLOCK_POLY, PERM_EXEC_POLY, PERM_PRELIM,
};
use crate::transcript::{drawn, history, History};
use crate::vectors::{flat, lemma_flat_index, lemma_uniform_len, repeated};
use crate::witness::{permutation_rows, running, shared_row, valid_bits};
use crate::witness_laws::{law_permutation_balances, valid_first, valid_rows};
use merlin::Transcript;
use vstd::arithmetic::power2::pow2;
use vstd::prelude::*;

verus! {

/// Whether a verifier is told what a prover proves.
pub open spec fn matches_input(inp: ProverInput<'_>, v: VerifierInput<'_>) -> bool {
    &&& v.input_block_num == inp.input_block_num
    &&& v.output_block_num == inp.output_block_num
    &&& v.input@ == inp.input@
    &&& v.output@ == inp.output@
    &&& v.output_block_index == inp.output_block_index
    &&& v.num_vars == inp.num_vars
    &&& v.input_output_cutoff == inp.input_output_cutoff
    &&& v.block_num_instances == inp.block_num_instances
    &&& v.block_max_num_proofs == inp.block_max_num_proofs
    &&& v.block_num_proofs@ == inp.block_num_proofs@
    &&& v.consis_num_proofs == inp.consis_num_proofs
    &&& v.programs() == inp.programs()
    &&& *v.vars_gens == *inp.vars_gens
    &&& *v.proofs_times_vars_gens == *inp.proofs_times_vars_gens
    &&& *v.total_proofs_times_vars_gens == *inp.total_proofs_times_vars_gens
}

/// Prover and verifier say the same up to the first challenge, draw the same
/// challenges, and say the same after them, as long as the verifier is handed
/// the commitments to the witnesses.
pub proof fn law_same_transcript(inp: ProverInput<'_>, v: VerifierInput<'_>, h: History)
    requires
        inp.wf(),
        matches_input(inp, v),
    ensures
        ({
            let c = witness_comms(inp.witnesses(inp.tau(h), inp.r(h)), inp.g());
            &&& v.said_assignments(h, c) == inp.said_assignments(h)
            &&& v.tau(h, c) == inp.tau(h)
            &&& v.r(h, c) == inp.r(h)
            &&& v.said_witnesses(h, c) == inp.said_witnesses(h)
        }),
{
    let w = inp.witnesses(inp.tau(h), inp.r(h));
    let g = inp.g();
    let c = witness_comms(w, g);
    let n = inp.block_num_instances as nat;
    let h1 = crate::statement::said_statement(
        h,
        inp.programs(),
        inp.input_block_num as nat,
        inp.output_block_num as nat,
        crate::instance::decoded_list(inp.input@),
        crate::instance::decoded_list(inp.output@),
        inp.block_max_num_proofs as nat,
        inp.block_num_proofs@,
    );
    lemma_said_two_lists(h1, w.block_vars, w.block_inputs, g, n);
    let h2 = said_pairs(h1, w.block_vars, w.block_inputs, g, n);
    lemma_said_one(h2, w.exec_inputs, g);
    assert(v.said_assignments(h, c) == inp.said_assignments(h));
    let t0 = drawn(drawn(inp.said_assignments(h), "challenge_tau"@), "challenge_r"@);
    lemma_said_one(t0, w.perm_w0, g);
    let t1 = said_matrix(t0, w.perm_w0[0], g);
    lemma_said_two_lists(t1, w.perm_block_w2, w.perm_block_w3, g, n);
    let t2 = said_pairs(t1, w.perm_block_w2, w.perm_block_w3, g, n);
    lemma_said_one(t2, w.perm_exec_w2, g);
    let t3 = said_matrix(t2, w.perm_exec_w2[0], g);
    lemma_said_one(t3, w.perm_exec_w3, g);
    let t4 = said_matrix(t3, w.perm_exec_w3[0], g);
    lemma_said_one(t4, w.consis_w2, g);
    let t5 = said_matrix(t4, w.consis_w2[0], g);
    lemma_said_one(t5, w.consis_w3, g);
    let t6 = said_matrix(t5, w.consis_w3[0], g);
    lemma_said_list(t6, w.mem_block_w1, g, n);
}

proof fn lemma_said_one(h: History, m: Seq<Seq<Seq<Scalar>>>, g: Gens)
    requires
        m.len() >= 1,
    ensures
        said_list(h, mat_commitments(m, g), 1) == said_matrix(h, m[0], g),
{
    lemma_said_list(h, m, g, 1);
    reveal_with_fuel(said_matrices, 2);
}

/// Whether two verifiers are told the same, but for the number of constraints
/// and the generators of the combinations of addresses.
pub open spec fn same_but_addresses(v: VerifierInput<'_>, w: VerifierInput<'_>) -> bool {
    w == (VerifierInput {
        mem_addr_comb: PublicProgram {
            num_cons: w.mem_addr_comb.num_cons,
            gens: w.mem_addr_comb.gens,
            ..v.mem_addr_comb
        },
        ..v
    })
}

/// The number of constraints and the generators of the combinations of
/// addresses take no part in the check of a proof: it is accepted and refused
/// alike, and leaves the same transcript. The commitment does take part.
pub proof fn law_addresses_unchecked<
    P,
    E,
    F: Fn(SatCheck<'_>, &P, Transcript) -> (Result<Challenges, ProofVerifyError>, Transcript),
    H: Fn(EvalCheck<'_>, &E, Transcript) -> (Result<(), ProofVerifyError>, Transcript),
>(
    v: VerifierInput<'_>,
    w: VerifierInput<'_>,
    h: History,
    sat: F,
    eval: H,
    trace: Seq<CheckTrace>,
    step: nat,
    proof: SNARK<P, E>,
    e: ProofVerifyError,
    after: History,
)
    requires
        same_but_addresses(v, w),
    ensures
        v.wf() == w.wf(),
        snark_shaped(v, proof) == snark_shaped(w, proof),
        snark_accepted(v, h, sat, eval, trace, proof, after) == snark_accepted(
            w,
            h,
            sat,
            eval,
            trace,
            proof,
            after,
        ),
        snark_refused(v, h, sat, eval, trace, step, proof, e, after) == snark_refused(
            w,
            h,
            sat,
            eval,
            trace,
            step,
            proof,
            e,
            after,
        ),
{
    lemma_addresses_one_way(v, w, h, sat, eval, trace, step, proof, e, after);
    lemma_addresses_one_way(w, v, h, sat, eval, trace, step, proof, e, after);
}

/// The check of a part does not read what differs.
proof fn lemma_part_alike<
    P,
    E,
    F: Fn(SatCheck<'_>, &P, Transcript) -> (Result<Challenges, ProofVerifyError>, Transcript),
    H: Fn(EvalCheck<'_>, &E, Transcript) -> (Result<(), ProofVerifyError>, Transcript),
>(
    v: VerifierInput<'_>,
    w: VerifierInput<'_>,
    c: WitnessComms,
    tau: Scalar,
    r: Scalar,
    sat: F,
    eval: H,
    s: int,
    tr: CheckTrace,
    parts: Seq<PartProof<P, E>>,
    steps: nat,
    e: ProofVerifyError,
)
    requires
        same_but_addresses(v, w),
    ensures
        part_checked(v, c, tau, r, sat, eval, s, tr, parts, steps) == part_checked(
            w,
            c,
            tau,
            r,
            sat,
            eval,
            s,
            tr,
            parts,
            steps,
        ),
        part_refused(v, c, tau, r, sat, eval, s, tr, parts, steps, e) == part_refused(
            w,
            c,
            tau,
            r,
            sat,
            eval,
            s,
            tr,
            parts,
            steps,
            e,
        ),
{
    reveal(part_checked);
    reveal(part_refused);
    let part = parts[s];
    assert(v.program(s) == w.program(s));
    assert(v.task(c, s, part.evals) == w.task(c, s, part.evals));
    assert(v.post_claims(c, s, part.values@) =~= w.post_claims(c, s, part.values@));
}

proof fn lemma_addresses_one_way<
    P,
    E,
    F: Fn(SatCheck<'_>, &P, Transcript) -> (Result<Challenges, ProofVerifyError>, Transcript),
    H: Fn(EvalCheck<'_>, &E, Transcript) -> (Result<(), ProofVerifyError>, Transcript),
>(
    v: VerifierInput<'_>,
    w: VerifierInput<'_>,
    h: History,
    sat: F,
    eval: H,
    trace: Seq<CheckTrace>,
    step: nat,
    proof: SNARK<P, E>,
    e: ProofVerifyError,
    after: History,
)
    requires
        same_but_addresses(v, w),
    ensures
        v.wf() ==> w.wf(),
        snark_shaped(v, proof) ==> snark_shaped(w, proof),
        snark_accepted(v, h, sat, eval, trace, proof, after) ==> snark_accepted(
            w,
            h,
            sat,
            eval,
            trace,
            proof,
            after,
        ),
        snark_refused(v, h, sat, eval, trace, step, proof, e, after) ==> snark_refused(
            w,
            h,
            sat,
            eval,
            trace,
            step,
            proof,
            e,
            after,
        ),
{
    let c = proof.comms();
    let (tau, r) = (v.tau(h, c), v.r(h, c));
    let parts = proof.part_proofs();
    assert(v.programs() =~= w.programs());
    assert(v.said_assignments(h, c) == w.said_assignments(h, c));
    assert(v.said_witnesses(h, c) == w.said_witnesses(h, c));
    assert(v.io_claim() == w.io_claim());
    assert forall|s: int| 0 <= s < trace.len() implies part_checked(
        v,
        c,
        tau,
        r,
        sat,
        eval,
        s,
        #[trigger] trace[s],
        parts,
        5,
    ) == part_checked(w, c, tau, r, sat, eval, s, trace[s], parts, 5) by {
        lemma_part_alike(v, w, c, tau, r, sat, eval, s, trace[s], parts, 5, e);
    }
    let k = trace.len() - 1;
    if trace.len() > 0 && step >= 1 {
        let tr = trace[k];
        lemma_part_alike(v, w, c, tau, r, sat, eval, k, tr, parts, (step - 1) as nat, e);
        lemma_part_alike(v, w, c, tau, r, sat, eval, k, tr, parts, step, e);
    }
    if snark_shaped(v, proof) {
        assert forall|s: int| 0 <= s < NUM_PARTS implies part_shaped(w, s, #[trigger] parts[s]) by {
            assert(part_shaped(v, s, parts[s]));
        }
    }
    if v.wf() {
        assert forall|p: int| 0 <= p < w.block_num_instances implies w.rows_fit(
            #[trigger] w.block_num_proofs@[p] as nat,
            *w.proofs_times_vars_gens,
        ) by {
            assert(v.rows_fit(v.block_num_proofs@[p] as nat, *v.proofs_times_vars_gens));
        }
    }
}

/// The first two values of the shared witness are the two challenges.
pub proof fn law_shared_witness_opens(tau: Scalar, r: Scalar, n: nat)
    requires
        n >= 1,
        tau.canonical(),
        r.canonical(),
    ensures
        evaluation(shared_row(tau, r, pow2(n)), repeated(szero(), n)) == tau,
        evaluation(shared_row(tau, r, pow2(n)), corner(n, 1)) == r,
{
    let z = shared_row(tau, r, pow2(n));
    vstd::arithmetic::power2::lemma2_to64();
    if n > 1 {
        vstd::arithmetic::power2::lemma_pow2_strictly_increases(1, n);
    }
    lemma_corner(n);
    assert(z[0] == tau);
    assert(z[1] == r);
    law_value_at_vertex(z, 0, n);
    law_value_at_vertex(z, 1, n);
}

/// The fourth value of the first row of a matrix opens at the vertex whose last
/// two coordinates are one.
pub proof fn law_product_opens(m: Seq<Seq<Scalar>>, width: nat)
    requires
        m.len() >= 1,
        width >= 4,
        forall|q: int| 0 <= q < m.len() ==> (#[trigger] m[q]).len() == width,
        flat(m).len() == pow2(log2_up(flat(m).len())),
        m[0][3].canonical(),
    ensures
        flat(m)[3] == m[0][3],
        product_opening(m).value == evaluation(product_opening(m).z, product_opening(m).point),
{
    let n = log2_up(flat(m).len());
    lemma_flat_index(m, width, 0, 3);
    lemma_uniform_len(m, width);
    assert(m.len() * width >= 4) by (nonlinear_arith)
        requires
            m.len() >= 1,
            width >= 4,
    ;
    assert(n >= 2) by {
        vstd::arithmetic::power2::lemma2_to64();
        assert(n != 0 && n != 1);
    }
    lemma_corner(n);
    law_value_at_vertex(flat(m), 3, n);
}

/// Whether the generators that products are opened with agree with those of
/// the commitments, and are in order.
pub open spec fn gens_agree(inp: ProverInput<'_>) -> bool {
    let pc = inp.vars_gens.gens_pc@;
    &&& openable(pc, inp.g(), log2_up(inp.num_vars as nat))
    &&& openable(pc, inp.g(), log2_up((inp.consis_num_proofs * inp.num_vars) as nat))
    &&& openable(
        inp.total_proofs_times_vars_gens.gens_pc@,
        inp.g(),
        log2_up((inp.consis_num_proofs * inp.num_vars) as nat),
    )
    &&& forall|p: int|
        0 <= p < inp.block_num_instances ==> openable(
            inp.proofs_times_vars_gens.gens_pc@,
            inp.g(),
            log2_up((#[trigger] inp.block_num_proofs@[p] * inp.num_vars) as nat),
        )
}

/// Whether an execution is honest: in each block and in the execution the valid
/// rows come first, the valid rows of the execution are those of the blocks in
/// another order, and the execution starts and ends as claimed. `ks` and `k`
/// are the numbers of valid rows.
pub open spec fn executed_honestly(inp: ProverInput<'_>, ks: Seq<nat>, k: nat) -> bool {
    &&& ks.len() == inp.block_num_instances
    &&& forall|p: int|
        0 <= p < inp.block_num_instances ==> valid_first(
            valid_bits(#[trigger] inp.inputs()[p]),
            ks[p],
        )
    &&& valid_first(valid_bits(inp.exec()), k)
    &&& valid_rows(inp.inputs(), ks, inp.block_num_instances as nat).to_multiset()
        == inp.exec().take(k as int).to_multiset()
    &&& claim_true(inp.io_claim(), flat(inp.exec()))
}

/// Whether two points are the same.
pub open spec fn same_point(a: Challenges, b: Challenges) -> bool {
    &&& a.rp@ == b.rp@
    &&& a.rq@ == b.rq@
    &&& a.rx@ == b.rx@
    &&& a.ry@ == b.ry@
}

/// Whether a check accepts the satisfiability of a part, from any transcript
/// with the history that the prover had, and is left where the prover was.
pub open spec fn sat_accepts<
    P,
    F: Fn(SatCheck<'_>, &P, Transcript) -> (Result<Challenges, ProofVerifyError>, Transcript),
>(sat: F, task: CheckTask, proof: P, tr: PartTrace) -> bool {
    forall|t: Transcript, reply: (Result<Challenges, ProofVerifyError>, Transcript)| #[trigger]
        sat_asked(sat, task, proof, t, reply) && history(t) == history(tr.before.0) ==> reply.0 is Ok
            && same_point(reply.0->Ok_0, tr.ch) && history(reply.1) == history(tr.after_sat.0)
}

/// Whether a check accepts the values of the matrices of a part, from any
/// transcript with the history that the prover had, and is left where the
/// prover was.
pub open spec fn eval_accepts<
    E,
    H: Fn(EvalCheck<'_>, &E, Transcript) -> (Result<(), ProofVerifyError>, Transcript),
>(
    eval: H,
    comm: R1CSCommitment,
    gens: R1CSCommitmentGens,
    rx: Seq<Scalar>,
    ry: Seq<Scalar>,
    evals: (Scalar, Scalar, Scalar),
    proof: E,
    tr: PartTrace,
) -> bool {
    forall|t: Transcript, reply: (Result<(), ProofVerifyError>, Transcript)| #[trigger]
        eval_asked(eval, comm, gens, rx, ry, evals, proof, t, reply) && history(t) == history(
            tr.mid.0,
        ) ==> reply.0 is Ok && history(reply.1) == history(tr.after_eval.0)
}

/// Whether the checks of a part accept what its steps gave.
pub open spec fn steps_accepted<
    P,
    E,
    F: Fn(SatCheck<'_>, &P, Transcript) -> (Result<Challenges, ProofVerifyError>, Transcript),
    H: Fn(EvalCheck<'_>, &E, Transcript) -> (Result<(), ProofVerifyError>, Transcript),
>(
    v: VerifierInput<'_>,
    c: WitnessComms,
    sat: F,
    eval: H,
    s: int,
    tr: PartTrace,
    part: PartProof<P, E>,
) -> bool {
    let prog = v.program(s);
    &&& sat_accepts(sat, v.task(c, s, part.evals), part.sat, tr)
    &&& eval_accepts(
        eval,
        prog.comm.kept(),
        prog.gens.gens_r1cs_eval,
        part_rp(s, tr.ch) + tr.ch.rx@,
        tr.ch.ry@,
        part.evals,
        part.eval,
        tr,
    )
}

/// Whether the challenges of the openings of a part have inverses.
pub open spec fn part_invertible(
    inp: ProverInput<'_>,
    tau: Scalar,
    r: Scalar,
    s: int,
    tr: PartTrace,
) -> bool {
    let w = inp.witnesses(tau, r);
    let mids = mid_openings(w, tau, r, s, tr.ch.ry@.len());
    let posts = post_openings(w, s);
    &&& openings_invertible(
        inp.vars_gens.gens_pc@,
        mids,
        history(tr.after_sat.0),
        tr.after_sat.1@,
        mids.len(),
    )
    &&& openings_invertible(
        product_gens(inp, s).gens_pc@,
        posts,
        history(tr.after_eval.0),
        tr.after_eval.1@,
        posts.len(),
    )
}

/// What is opened between the two steps of a part is true.
proof fn lemma_mid_true(inp: ProverInput<'_>, tau: Scalar, r: Scalar, s: int, ry_len: nat)
    requires
        inp.wf(),
        gens_agree(inp),
        tau.canonical(),
        r.canonical(),
        s == PERM_PRELIM ==> pow2(ry_len) == inp.num_vars,
    ensures
        ({
            let mids = mid_openings(inp.witnesses(tau, r), tau, r, s, ry_len);
            forall|i: int|
                0 <= i < mids.len() ==> opening_true(
                    inp.vars_gens.gens_pc@,
                    inp.g(),
                    #[trigger] mids[i],
                )
        }),
{
    if s == PERM_PRELIM {
        let w = inp.witnesses(tau, r);
        let z = shared_row(tau, r, inp.num_vars as nat);
        assert(flat(w.perm_w0[0]) =~= z) by {
            let m = seq![z];
            assert(w.perm_w0[0] =~= m);
            assert(m.drop_last() =~= Seq::<Seq<Scalar>>::empty());
            reveal_with_fuel(flat, 2);
            assert(flat(m) =~= z);
        }
        lemma_log2_of_pow2(ry_len);
        if ry_len == 0 {
            vstd::arithmetic::power2::lemma2_to64();
        }
        law_shared_witness_opens(tau, r, ry_len);
    }
}

/// The running product is a reduced scalar where the factors are.
proof fn lemma_running_canonical(v: Seq<Scalar>, x: Seq<Scalar>, q: int)
    requires
        0 <= q < v.len(),
        x[q].canonical(),
    ensures
        running(v, x, q).canonical(),
{
    if q < v.len() - 1 {
        canonical_ops(
            x[q],
            crate::scalar::ssub(
                crate::scalar::sadd(smul(v[q + 1], running(v, x, q + 1)), sone()),
                v[q + 1],
            ),
        );
    }
}

/// The products that a part leaves open as they should.
proof fn lemma_product_true(
    m: Seq<Seq<Scalar>>,
    n: nat,
    width: nat,
    gens: (Gens, Gens),
    gc: Gens,
)
    requires
        shaped(m, n, width),
        width >= 4,
        crate::math::is_pow2(n),
        crate::math::is_pow2(width),
        openable(gens, gc, log2_up(n * width)),
        m[0][3].canonical(),
    ensures
        opening_true(gens, gc, product_opening(m)),
        flat(m)[3] == m[0][3],
        log2_up(flat(m).len()) == log2_up(n * width),
{
    crate::sparse_mlpoly::lemma_pow2_product(n, width);
    lemma_uniform_len(m, width);
    law_product_opens(m, width);
    assert(log2_up(n * width) >= 2) by {
        assert(n * width >= 4) by (nonlinear_arith)
            requires
                n >= 1,
                width >= 4,
        ;
        crate::math::lemma_log2_monotone(4, n * width);
        vstd::arithmetic::power2::lemma2_to64();
        lemma_log2_of_pow2(2);
    }
    assert(corner(log2_up(n * width), 2).len() == log2_up(n * width));
}

/// The shape of the accumulators, and their fourth values.
proof fn lemma_accumulators(inp: ProverInput<'_>, tau: Scalar, r: Scalar)
    requires
        inp.wf(),
    ensures
        ({
            let w = inp.witnesses(tau, r);
            let width = inp.num_vars as nat;
            &&& forall|p: int|
                0 <= p < inp.block_num_instances ==> {
                    let m = #[trigger] w.perm_block_w3[p];
                    shaped(m, inp.block_num_proofs@[p] as nat, width) && m[0][3].canonical()
                }
            &&& forall|p: int|
                0 <= p < inp.block_num_instances ==> {
                    let m = #[trigger] w.mem_block_w1[p];
                    shaped(m, inp.block_num_proofs@[p] as nat, width) && m[0][3].canonical()
                }
            &&& shaped(w.perm_exec_w3[0], inp.consis_num_proofs as nat, width)
            &&& w.perm_exec_w3[0][0][3].canonical()
        }),
{
    let w = inp.witnesses(tau, r);
    let width = inp.num_vars as nat;
    assert forall|p: int| 0 <= p < inp.block_num_instances implies {
        let m = #[trigger] w.perm_block_w3[p];
        shaped(m, inp.block_num_proofs@[p] as nat, width) && m[0][3].canonical()
    } by {
        assert(inp.block_fits(p));
        let n = inp.block_num_proofs@[p] as nat;
        crate::sparse_mlpoly::lemma_pow2_product(n, n);
        lemma_perm_third(inp.inputs()[p], n, tau, r, width);
    }
    assert forall|p: int| 0 <= p < inp.block_num_instances implies {
        let m = #[trigger] w.mem_block_w1[p];
        shaped(m, inp.block_num_proofs@[p] as nat, width) && m[0][3].canonical()
    } by {
        assert(inp.block_fits(p));
        let n = inp.block_num_proofs@[p] as nat;
        crate::sparse_mlpoly::lemma_pow2_product(n, n);
        let acc = inp.block_num_mem_accesses@[p] as nat;
        let (a, b) = (inp.inputs()[p], inp.mems()[p]);
        let v = valid_bits(a.take(n as int));
        let x = crate::witness::mem_roots(b, v, tau, r, acc);
        canonical_ops(
            crate::witness::mem_product(b[0], v[0], tau, r, (acc - 1) as nat),
            crate::witness::mem_term(b[0], tau, r, (acc - 1) as nat),
        );
        lemma_running_canonical(v, x, 0);
    }
    let n = inp.consis_num_proofs as nat;
    crate::sparse_mlpoly::lemma_pow2_product(n, n);
    lemma_perm_third(inp.exec(), n, tau, r, width);
}

proof fn lemma_perm_third(m: Seq<Seq<Scalar>>, n: nat, tau: Scalar, r: Scalar, width: nat)
    requires
        1 <= n <= m.len(),
        width >= 4,
    ensures
        shaped(permutation_rows(m, n, tau, r, width), n, width),
        permutation_rows(m, n, tau, r, width)[0][3].canonical(),
{
    let v = valid_bits(m.take(n as int));
    let x = crate::witness::roots(m.take(n as int), tau, r);
    canonical_ops(
        m[0][0],
        crate::scalar::ssub(tau, crate::vectors::sum(crate::witness::weighted(m[0], r))),
    );
    lemma_running_canonical(v, x, 0);
}

/// What is opened after a part is true, and what the verifier claims of it is
/// the public side.
proof fn lemma_post_true(
    inp: ProverInput<'_>,
    v: VerifierInput<'_>,
    tau: Scalar,
    r: Scalar,
    s: int,
)
    requires
        inp.wf(),
        matches_input(inp, v),
        gens_agree(inp),
        0 <= s < NUM_PARTS,
    ensures
        ({
            let w = inp.witnesses(tau, r);
            let posts = post_openings(w, s);
            let gens = product_gens(inp, s).gens_pc@;
            &&& forall|i: int|
                0 <= i < posts.len() ==> opening_true(gens, inp.g(), #[trigger] posts[i])
            &&& v.post_claims(witness_comms(w, inp.g()), s, product_values(w, s)) == claims_of(
                posts,
                inp.g(),
            )
        }),
{
    let w = inp.witnesses(tau, r);
    let g = inp.g();
    let c = witness_comms(w, g);
    let posts = post_openings(w, s);
    let gens = product_gens(inp, s).gens_pc@;
    let width = inp.num_vars as nat;
    let ms = product_mats(w, s);
    lemma_accumulators(inp, tau, r);
    let claims = v.post_claims(c, s, product_values(w, s));
    assert(ms.len() == v.product_count(s));
    assert forall|i: int| 0 <= i < posts.len() implies opening_true(gens, g, #[trigger] posts[i])
        && claims[i] == claims_of(posts, g)[i] by {
        let m = ms[i];
        if s == PERM_EXEC_POLY {
            lemma_product_true(m, inp.consis_num_proofs as nat, width, gens, g);
        } else {
            assert(inp.block_fits(i));
            let n = inp.block_num_proofs@[i] as nat;
            assert(openable(gens, g, log2_up((inp.block_num_proofs@[i] * inp.num_vars) as nat)));
            if s == PERM_BLOCK_POLY {
                assert(m == w.perm_block_w3[i]);
            } else {
                assert(m == w.mem_block_w1[i]);
            }
            lemma_product_true(m, n, width, gens, g);
        }
    }
    assert(claims =~= claims_of(posts, g));
}

/// The openings of a part that was proved are accepted.
proof fn lemma_part_openings<
    P,
    E,
    F: Fn(SatJob<'_>, Transcript, RandomTape) -> (P, Challenges, Transcript, RandomTape),
    H: Fn(EvalJob<'_>, Transcript, RandomTape) -> (E, Transcript, RandomTape),
>(
    inp: ProverInput<'_>,
    v: VerifierInput<'_>,
    tau: Scalar,
    r: Scalar,
    sat: F,
    eval: H,
    s: int,
    tr: PartTrace,
    part: PartProof<P, E>,
)
    requires
        encodes_uniquely(),
        inp.wf(),
        matches_input(inp, v),
        gens_agree(inp),
        tau.canonical(),
        r.canonical(),
        0 <= s < NUM_PARTS,
        part_proved(inp, tau, r, sat, eval, s, tr, part),
        part_invertible(inp, tau, r, s, tr),
        s == PERM_PRELIM ==> pow2(tr.ch.ry@.len()) == inp.num_vars,
    ensures
        ({
            let c = witness_comms(inp.witnesses(tau, r), inp.g());
            let mids = mid_claims(c, tau, r, s, tr.ch.ry@.len());
            let posts = v.post_claims(c, s, part.values@);
            let all = proofs(part.openings@);
            &&& all.len() >= mids.len()
            &&& all.len() >= posts.len()
            &&& check_all(
                v.vars_gens.gens_pc@,
                mids,
                all,
                history(tr.after_sat.0),
                mids.len(),
            ) == (true, history(tr.mid.0))
            &&& check_all(
                v.product_gens(s).gens_pc@,
                posts,
                all,
                history(tr.after_eval.0),
                posts.len(),
            ) == (true, history(tr.after.0))
        }),
{
    let w = inp.witnesses(tau, r);
    let g = inp.g();
    let c = witness_comms(w, g);
    let all = proofs(part.openings@);
    let mids = mid_openings(w, tau, r, s, tr.ch.ry@.len());
    let posts = post_openings(w, s);
    let pc = inp.vars_gens.gens_pc@;
    let prod = product_gens(inp, s).gens_pc@;
    let (h1, t1) = (history(tr.after_sat.0), tr.after_sat.1@);
    let (h2, t2) = (history(tr.after_eval.0), tr.after_eval.1@);
    let (ps, th1, rh1) = open_all(pc, mids, h1, t1, mids.len());
    let (qs, th2, rh2) = open_all(prod, posts, h2, t2, posts.len());
    lemma_open_all(pc, mids, h1, t1, 0, mids.len());
    lemma_open_all(prod, posts, h2, t2, 0, posts.len());
    lemma_mid_true(inp, tau, r, s, tr.ch.ry@.len());
    lemma_post_true(inp, v, tau, r, s);
    assert(mids.len() == 0 || posts.len() == 0);
    assert(all.take(mids.len() as int) =~= ps);
    assert(all.take(posts.len() as int) =~= qs) by {
        if posts.len() > 0 {
            assert(ps =~= Seq::<crate::nizk::DotLog>::empty());
        }
    }
    law_openings_accepted(pc, g, mids, all, h1, t1, mids.len());
    law_openings_accepted(prod, g, posts, all, h2, t2, posts.len());
    assert(mid_claims(c, tau, r, s, tr.ch.ry@.len()) =~= claims_of(mids, g));
}

/// A check of a part that was proved goes through, step by step, with the
/// histories that the prover had.
proof fn lemma_part_follows<
    P,
    E,
    F: Fn(SatCheck<'_>, &P, Transcript) -> (Result<Challenges, ProofVerifyError>, Transcript),
    H: Fn(EvalCheck<'_>, &E, Transcript) -> (Result<(), ProofVerifyError>, Transcript),
>(
    v: VerifierInput<'_>,
    c: WitnessComms,
    tau: Scalar,
    r: Scalar,
    sat: F,
    eval: H,
    s: int,
    tr: PartTrace,
    ct: CheckTrace,
    parts: Seq<PartProof<P, E>>,
    step: nat,
)
    requires
        part_follows(v, c, tau, r, sat, eval, s, tr, parts),
        history(ct.before) == history(tr.before.0),
        part_checked(v, c, tau, r, sat, eval, s, ct, parts, (step - 1) as nat),
        step >= 1,
    ensures
        step >= 6 ==> history(ct.after) == history(tr.after.0),
        forall|e: ProofVerifyError| !#[trigger]
            part_refused(v, c, tau, r, sat, eval, s, ct, parts, step, e),
{
    reveal(part_checked);
    reveal(part_refused);
    reveal(part_follows);
}

/// The check of a proof of an honest execution follows the prover through the
/// parts.
proof fn lemma_parts_follow<
    P,
    E,
    F: Fn(SatCheck<'_>, &P, Transcript) -> (Result<Challenges, ProofVerifyError>, Transcript),
    H: Fn(EvalCheck<'_>, &E, Transcript) -> (Result<(), ProofVerifyError>, Transcript),
>(
    v: VerifierInput<'_>,
    c: WitnessComms,
    tau: Scalar,
    r: Scalar,
    sat: F,
    eval: H,
    trace: Seq<PartTrace>,
    checks: Seq<CheckTrace>,
    parts: Seq<PartProof<P, E>>,
    k: nat,
)
    requires
        trace.len() == NUM_PARTS,
        k <= checks.len() <= NUM_PARTS,
        checks.len() >= 1,
        forall|s: int| 0 < s < NUM_PARTS ==> (#[trigger] trace[s]).before == trace[s - 1].after,
        forall|s: int|
            0 <= s < NUM_PARTS ==> part_follows(v, c, tau, r, sat, eval, s, #[trigger] trace[s], parts),
        parts_checked(v, c, tau, r, sat, eval, checks, parts, k),
        history(checks[0].before) == history(trace[0].before.0),
    ensures
        k < checks.len() ==> history(checks[k as int].before) == history(trace[k as int].before.0),
        k >= 1 ==> history(checks[k - 1].after) == history(trace[k - 1].after.0),
    decreases k,
{
    if k >= 1 {
        let s = k - 1;
        lemma_parts_follow(v, c, tau, r, sat, eval, trace, checks, parts, s as nat);
        assert(part_follows(v, c, tau, r, sat, eval, s, trace[s], parts));
        assert(part_checked(v, c, tau, r, sat, eval, s, checks[s], parts, 5));
        lemma_part_follows(v, c, tau, r, sat, eval, s, trace[s], checks[s], parts, 6);
        if k < checks.len() {
            assert(checks[k as int].before == checks[k - 1].after);
            assert(trace[k as int].before == trace[k - 1].after);
        }
    }
}

/// What the check of a part needs in order to follow the prover.
#[verifier::opaque]
spec fn part_follows<
    P,
    E,
    F: Fn(SatCheck<'_>, &P, Transcript) -> (Result<Challenges, ProofVerifyError>, Transcript),
    H: Fn(EvalCheck<'_>, &E, Transcript) -> (Result<(), ProofVerifyError>, Transcript),
>(
    v: VerifierInput<'_>,
    c: WitnessComms,
    tau: Scalar,
    r: Scalar,
    sat: F,
    eval: H,
    s: int,
    tr: PartTrace,
    parts: Seq<PartProof<P, E>>,
) -> bool {
    let mids = mid_claims(c, tau, r, s, tr.ch.ry@.len());
    let posts = v.post_claims(c, s, parts[s].values@);
    let all = proofs(parts[s].openings@);
    &&& steps_accepted(v, c, sat, eval, s, tr, parts[s])
    &&& check_all(v.vars_gens.gens_pc@, mids, all, history(tr.after_sat.0), mids.len()) == (
        true,
        history(tr.mid.0),
    )
    &&& check_all(
        v.product_gens(s).gens_pc@,
        posts,
        all,
        history(tr.after_eval.0),
        posts.len(),
    ) == (true, history(tr.after.0))
    &&& s == PERM_EXEC_POLY ==> balanced(v, parts)
}

/// The products of an honest execution balance.
proof fn lemma_honest_balanced<P, E>(
    inp: ProverInput<'_>,
    v: VerifierInput<'_>,
    tau: Scalar,
    r: Scalar,
    ks: Seq<nat>,
    k: nat,
    parts: Seq<PartProof<P, E>>,
)
    requires
        inp.wf(),
        matches_input(inp, v),
        executed_honestly(inp, ks, k),
        parts[PERM_BLOCK_POLY as int].values@ == product_values(
            inp.witnesses(tau, r),
            PERM_BLOCK_POLY as int,
        ),
        parts[PERM_EXEC_POLY as int].values@ == product_values(
            inp.witnesses(tau, r),
            PERM_EXEC_POLY as int,
        ),
    ensures
        balanced(v, parts),
{
    let w = inp.witnesses(tau, r);
    let width = inp.num_vars as nat;
    let values = product_values(w, PERM_BLOCK_POLY as int);
    let counts = inp.block_num_proofs@;
    lemma_accumulators(inp, tau, r);
    assert forall|p: int| 0 <= p < inp.inputs().len() implies {
        &&& (#[trigger] counts[p]) <= inp.inputs()[p].len()
        &&& valid_first(valid_bits(inp.inputs()[p].take(counts[p] as int)), ks[p])
        &&& values[p] == permutation_rows(inp.inputs()[p], counts[p] as nat, tau, r, width)[0][3]
    } by {
        assert(inp.block_fits(p));
        assert(inp.inputs()[p].take(counts[p] as int) =~= inp.inputs()[p]);
        lemma_flat_index(w.perm_block_w3[p], width, 0, 3);
    }
    assert(inp.exec().take(inp.consis_num_proofs as int) =~= inp.exec());
    law_permutation_balances(
        inp.inputs(),
        counts,
        ks,
        values,
        inp.exec(),
        inp.consis_num_proofs as nat,
        k,
        tau,
        r,
        width,
    );
    lemma_flat_index(w.perm_exec_w3[0], width, 0, 3);
    assert(values.take(inp.block_num_instances as int) =~= values);
}

/// Where the checks of all parts follow the prover, and the claims about the
/// input and the output are accepted, no check of the proof ends in an error.
proof fn lemma_never_refused<
    P,
    E,
    G: Fn(SatCheck<'_>, &P, Transcript) -> (Result<Challenges, ProofVerifyError>, Transcript),
    K: Fn(EvalCheck<'_>, &E, Transcript) -> (Result<(), ProofVerifyError>, Transcript),
>(
    v: VerifierInput<'_>,
    h: History,
    check_sat: G,
    check_eval: K,
    trace: Seq<PartTrace>,
    proof: SNARK<P, E>,
    after: History,
)
    requires
        trace.len() == NUM_PARTS,
        forall|s: int| 0 < s < NUM_PARTS ==> (#[trigger] trace[s]).before == trace[s - 1].after,
        history(trace[0].before.0) == v.said_witnesses(h, proof.comms()),
        forall|s: int|
            0 <= s < NUM_PARTS ==> part_follows(
                v,
                proof.comms(),
                v.tau(h, proof.comms()),
                v.r(h, proof.comms()),
                check_sat,
                check_eval,
                s,
                #[trigger] trace[s],
                proof.part_proofs(),
            ),
        verify_claims(
            v.vars_gens.gens_pc@,
            proof.comms().exec_inputs[0],
            log2_up((v.consis_num_proofs * v.num_vars) as nat),
            v.io_claim(),
            proof.io(),
            history(trace[NUM_PARTS - 1].after.0),
            v.io_claim().count(),
        ) == (true, after),
    ensures
        forall|checks: Seq<CheckTrace>, step: nat, e: ProofVerifyError, end: History| !#[trigger]
            snark_refused(v, h, check_sat, check_eval, checks, step, proof, e, end),
        forall|checks: Seq<CheckTrace>, end: History| #[trigger]
            snark_accepted(v, h, check_sat, check_eval, checks, proof, end) ==> end == after,
{
    let c = proof.comms();
    let (tau, r) = (v.tau(h, c), v.r(h, c));
    let parts = proof.part_proofs();
    assert forall|checks: Seq<CheckTrace>, step: nat, e: ProofVerifyError, end: History| !#[trigger]
        snark_refused(v, h, check_sat, check_eval, checks, step, proof, e, end) by {
        if snark_refused(v, h, check_sat, check_eval, checks, step, proof, e, end) {
            if parts_refused(v, c, tau, r, check_sat, check_eval, checks, parts, step, e) {
                let s = checks.len() - 1;
                lemma_parts_follow(
                    v,
                    c,
                    tau,
                    r,
                    check_sat,
                    check_eval,
                    trace,
                    checks,
                    parts,
                    s as nat,
                );
                assert(part_follows(v, c, tau, r, check_sat, check_eval, s, trace[s], parts));
                lemma_part_follows(
                    v,
                    c,
                    tau,
                    r,
                    check_sat,
                    check_eval,
                    s,
                    trace[s],
                    checks[s],
                    parts,
                    step,
                );
            } else {
                lemma_parts_follow(
                    v,
                    c,
                    tau,
                    r,
                    check_sat,
                    check_eval,
                    trace,
                    checks,
                    parts,
                    NUM_PARTS as nat,
                );
            }
        }
    }
    assert forall|checks: Seq<CheckTrace>, end: History| #[trigger]
        snark_accepted(v, h, check_sat, check_eval, checks, proof, end) implies end == after by {
        lemma_parts_follow(
            v,
            c,
            tau,
            r,
            check_sat,
            check_eval,
            trace,
            checks,
            parts,
            NUM_PARTS as nat,
        );
    }
}

/// The claims about the input and the output of an honest execution are
/// accepted.
proof fn lemma_honest_claims(
    inp: ProverInput<'_>,
    v: VerifierInput<'_>,
    p: IOProofsView,
    last: Stage,
    after: History,
)
    requires
        encodes_uniquely(),
        inp.wf(),
        matches_input(inp, v),
        gens_agree(inp),
        claim_true(inp.io_claim(), flat(inp.exec())),
        claims_proved(
            inp.vars_gens.gens_pc@,
            flat(inp.exec()),
            log2_up((inp.consis_num_proofs * inp.num_vars) as nat),
            inp.io_claim(),
            history(last.0),
            last.1@,
            p,
            after,
        ),
        openings_invertible(
            inp.vars_gens.gens_pc@,
            io_openings(
                inp.io_claim(),
                flat(inp.exec()),
                log2_up((inp.consis_num_proofs * inp.num_vars) as nat),
            ),
            history(last.0),
            last.1@,
            inp.io_claim().count(),
        ),
    ensures
        verify_claims(
            v.vars_gens.gens_pc@,
            plain_commitment(flat(inp.exec()), inp.g()),
            log2_up((v.consis_num_proofs * v.num_vars) as nat),
            v.io_claim(),
            p,
            history(last.0),
            v.io_claim().count(),
        ) == (true, after),
{
    let z = flat(inp.exec());
    let len = log2_up((inp.consis_num_proofs * inp.num_vars) as nat);
    lemma_uniform_len(inp.exec(), inp.num_vars as nat);
    crate::sparse_mlpoly::lemma_pow2_product(inp.consis_num_proofs as nat, inp.num_vars as nat);
    law_claims_accepted(
        inp.vars_gens.gens_pc@,
        inp.g(),
        z,
        len,
        inp.io_claim(),
        p,
        history(last.0),
        last.1@,
        after,
    );
    assert(v.io_claim() == inp.io_claim());
}

/// The check of a part of an honest proof follows the prover, and the part has
/// the shape that the verifier calls for.
proof fn lemma_honest_part<
    P,
    E,
    F: Fn(SatJob<'_>, Transcript, RandomTape) -> (P, Challenges, Transcript, RandomTape),
    H: Fn(EvalJob<'_>, Transcript, RandomTape) -> (E, Transcript, RandomTape),
    G: Fn(SatCheck<'_>, &P, Transcript) -> (Result<Challenges, ProofVerifyError>, Transcript),
    K: Fn(EvalCheck<'_>, &E, Transcript) -> (Result<(), ProofVerifyError>, Transcript),
>(
    inp: ProverInput<'_>,
    v: VerifierInput<'_>,
    tau: Scalar,
    r: Scalar,
    sat: F,
    eval: H,
    check_sat: G,
    check_eval: K,
    s: int,
    tr: PartTrace,
    parts: Seq<PartProof<P, E>>,
)
    requires
        encodes_uniquely(),
        inp.wf(),
        matches_input(inp, v),
        gens_agree(inp),
        tau.canonical(),
        r.canonical(),
        0 <= s < NUM_PARTS,
        sat_sound::<P, F>(sat),
        part_proved(inp, tau, r, sat, eval, s, tr, parts[s]),
        part_invertible(inp, tau, r, s, tr),
        steps_accepted(
            v,
            witness_comms(inp.witnesses(tau, r), inp.g()),
            check_sat,
            check_eval,
            s,
            tr,
            parts[s],
        ),
        s == PERM_EXEC_POLY ==> balanced(v, parts),
    ensures
        part_follows(
            v,
            witness_comms(inp.witnesses(tau, r), inp.g()),
            tau,
            r,
            check_sat,
            check_eval,
            s,
            tr,
            parts,
        ),
        part_shaped(v, s, parts[s]),
{
    reveal(part_follows);
    let w = inp.witnesses(tau, r);
    if s == PERM_PRELIM {
        let task = inp.task(w, s);
        assert(sat_ran(sat, task, inp.g(), tr.before, parts[s].sat, tr.ch, tr.after_sat));
        assert(sized(task, tr.ch));
    }
    lemma_part_openings(inp, v, tau, r, sat, eval, s, tr, parts[s]);
    lemma_post_true(inp, v, tau, r, s);
    assert(product_mats(w, s).len() == v.product_count(s));
    assert(proofs(parts[s].openings@).len() == parts[s].openings@.len());
}

/// The check of an honest proof follows the prover in all parts.
proof fn lemma_honest_parts<
    P,
    E,
    F: Fn(SatJob<'_>, Transcript, RandomTape) -> (P, Challenges, Transcript, RandomTape),
    H: Fn(EvalJob<'_>, Transcript, RandomTape) -> (E, Transcript, RandomTape),
    G: Fn(SatCheck<'_>, &P, Transcript) -> (Result<Challenges, ProofVerifyError>, Transcript),
    K: Fn(EvalCheck<'_>, &E, Transcript) -> (Result<(), ProofVerifyError>, Transcript),
>(
    inp: ProverInput<'_>,
    v: VerifierInput<'_>,
    h: History,
    sat: F,
    eval: H,
    check_sat: G,
    check_eval: K,
    trace: Seq<PartTrace>,
    c: WitnessComms,
    parts: Seq<PartProof<P, E>>,
    ks: Seq<nat>,
    k: nat,
)
    requires
        encodes_uniquely(),
        inp.wf(),
        matches_input(inp, v),
        gens_agree(inp),
        sat_sound::<P, F>(sat),
        executed_honestly(inp, ks, k),
        c == witness_comms(inp.witnesses(inp.tau(h), inp.r(h)), inp.g()),
        parts.len() == NUM_PARTS,
        trace.len() == NUM_PARTS,
        forall|s: int|
            0 <= s < NUM_PARTS ==> part_proved(
                inp,
                inp.tau(h),
                inp.r(h),
                sat,
                eval,
                s,
                #[trigger] trace[s],
                parts[s],
            ),
        forall|s: int|
            0 <= s < NUM_PARTS ==> part_invertible(inp, inp.tau(h), inp.r(h), s, #[trigger] trace[s])
                && steps_accepted(v, c, check_sat, check_eval, s, trace[s], parts[s]),
    ensures
        forall|s: int|
            0 <= s < NUM_PARTS ==> part_follows(
                v,
                c,
                inp.tau(h),
                inp.r(h),
                check_sat,
                check_eval,
                s,
                #[trigger] trace[s],
                parts,
            ),
        forall|s: int| 0 <= s < NUM_PARTS ==> part_shaped(v, s, #[trigger] parts[s]),
{
    let (tau, r) = (inp.tau(h), inp.r(h));
    lemma_canonical_challenge(inp.said_assignments(h), "challenge_tau"@);
    lemma_canonical_challenge(drawn(inp.said_assignments(h), "challenge_tau"@), "challenge_r"@);
    let (b, x) = (trace[PERM_BLOCK_POLY as int], trace[PERM_EXEC_POLY as int]);
    lemma_honest_balanced(inp, v, tau, r, ks, k, parts);
    assert forall|s: int| 0 <= s < NUM_PARTS implies part_follows(
        v,
        c,
        tau,
        r,
        check_sat,
        check_eval,
        s,
        #[trigger] trace[s],
        parts,
    ) && part_shaped(v, s, parts[s]) by {
        lemma_honest_part(inp, v, tau, r, sat, eval, check_sat, check_eval, s, trace[s], parts);
    }
    assert forall|s: int| 0 <= s < NUM_PARTS implies part_shaped(v, s, #[trigger] parts[s]) by {
        let tr = trace[s];
        assert(part_proved(inp, tau, r, sat, eval, s, tr, parts[s]));
    }
}

/// A proof whose parts have the shape that the verifier calls for has that
/// shape as a whole.
proof fn lemma_honest_shaped<P, E>(
    inp: ProverInput<'_>,
    v: VerifierInput<'_>,
    w: WitnessMats,
    tau: Scalar,
    r: Scalar,
    proof: SNARK<P, E>,
)
    requires
        inp.wf(),
        matches_input(inp, v),
        w == inp.witnesses(tau, r),
        proof.comms() == witness_comms(w, inp.g()),
        proof.part_proofs().len() == NUM_PARTS,
        forall|s: int|
            0 <= s < NUM_PARTS ==> part_shaped(v, s, #[trigger] proof.part_proofs()[s]),
        proof.io().inputs.len() == inp.io_claim().num_inputs(),
        proof.io().outputs.len() == inp.io_claim().num_inputs(),
    ensures
        snark_shaped(v, proof),
{
}

/// A proof of an honest execution is accepted: it has the shape that the
/// verifier calls for, no check of it ends in an error, and the transcript is
/// left as the prover left it. The checks that are handed to the verifier have
/// to accept what the steps that were handed to the prover gave, and the
/// challenges of the openings have to have inverses.
pub proof fn law_honest_proof_accepted<
    P,
    E,
    F: Fn(SatJob<'_>, Transcript, RandomTape) -> (P, Challenges, Transcript, RandomTape),
    H: Fn(EvalJob<'_>, Transcript, RandomTape) -> (E, Transcript, RandomTape),
    G: Fn(SatCheck<'_>, &P, Transcript) -> (Result<Challenges, ProofVerifyError>, Transcript),
    K: Fn(EvalCheck<'_>, &E, Transcript) -> (Result<(), ProofVerifyError>, Transcript),
>(
    inp: ProverInput<'_>,
    v: VerifierInput<'_>,
    h: History,
    sat: F,
    eval: H,
    check_sat: G,
    check_eval: K,
    seed: Scalar,
    trace: Seq<PartTrace>,
    proof: SNARK<P, E>,
    after: History,
    ks: Seq<nat>,
    k: nat,
)
    requires
        encodes_uniquely(),
        inp.wf(),
        matches_input(inp, v),
        gens_agree(inp),
        sat_sound::<P, F>(sat),
        snark_proved(inp, h, sat, eval, seed, trace, proof, after),
        executed_honestly(inp, ks, k),
        forall|s: int|
            0 <= s < NUM_PARTS ==> part_invertible(inp, inp.tau(h), inp.r(h), s, #[trigger] trace[s])
                && steps_accepted(
                v,
                proof.comms(),
                check_sat,
                check_eval,
                s,
                trace[s],
                proof.part_proofs()[s],
            ),
        openings_invertible(
            inp.vars_gens.gens_pc@,
            io_openings(
                inp.io_claim(),
                flat(inp.exec()),
                log2_up((inp.consis_num_proofs * inp.num_vars) as nat),
            ),
            history(trace[NUM_PARTS - 1].after.0),
            trace[NUM_PARTS - 1].after.1@,
            inp.io_claim().count(),
        ),
    ensures
        snark_shaped(v, proof),
        forall|checks: Seq<CheckTrace>, step: nat, e: ProofVerifyError, end: History| !#[trigger]
            snark_refused(v, h, check_sat, check_eval, checks, step, proof, e, end),
        forall|checks: Seq<CheckTrace>, end: History| #[trigger]
            snark_accepted(v, h, check_sat, check_eval, checks, proof, end) ==> end == after,
{
    let (tau, r) = (inp.tau(h), inp.r(h));
    let w = inp.witnesses(tau, r);
    let c = proof.comms();
    let parts = proof.part_proofs();
    law_same_transcript(inp, v, h);
    lemma_honest_parts(inp, v, h, sat, eval, check_sat, check_eval, trace, c, parts, ks, k);
    lemma_honest_claims(inp, v, proof.io(), trace[NUM_PARTS - 1].after, after);
    assert(c.exec_inputs[0] == plain_commitment(flat(inp.exec()), inp.g()));
    lemma_never_refused(v, h, check_sat, check_eval, trace, proof, after);
    lemma_honest_shaped(inp, v, w, tau, r, proof);
}

} // verus!
