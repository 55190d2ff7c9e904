//! The proofs of the parts of a program, one after the other.
use crate::committed::Committed;
use crate::io_proofs::proofs;
use crate::jobs::{sections_of, BatchJob, Challenges, EvalJob, SatJob, SatTask, SingleJob};
use crate::math::lemma_log2_of_pow2;
use crate::nizk::DotLog;
use crate::openings::{corner_point, open_all, open_next, Opening};
use crate::poly_eval::PolyEvalProof;
use crate::prover::Witnesses;
use crate::r1csgens::R1CSGens;
use crate::r1csinstance::{list_value, R1CS};
use crate::random::RandomTape;
use crate::scalar::Scalar;
use crate::sparse_mlpoly::{R1CSCommitmentGens, R1CSDecommitment};
use crate::statement::{
    mid_openings, post_openings, product_opening, product_values, uses_rp, ProverInput, BLOCK,
    CONSIS_CHECK, CONSIS_COMB, MEM_BLOCK_POLY, MEM_EXTRACT, NUM_PARTS, PERM_BLOCK_POLY,
    PERM_BLOCK_ROOT, PERM_EXEC_POLY, PERM_EXEC_ROOT, PERM_PRELIM,
};
use crate::dense_mlpoly::eq_evals;
use crate::transcript::{append_scalar, history, said, History};
use crate::vectors::{concat, copy_of, flat, zeros};
use merlin::Transcript;
use vstd::arithmetic::power2::pow2;
use vstd::prelude::*;

verus! {

/// The proof of a part.
pub struct PartProof<P, E> {
    /// The proof of satisfiability.
    pub sat: P,
    /// The values of the three matrices.
    pub evals: (Scalar, Scalar, Scalar),
    /// The proof of these values.
    pub eval: E,
    /// The proofs of the openings that belong to the part.
    pub openings: Vec<PolyEvalProof>,
    /// The products that the part leaves.
    pub values: Vec<Scalar>,
}

/// A transcript and a tape.
pub type Stage = (Transcript, RandomTape);

/// Where the proof of a part stands between its steps.
pub struct PartTrace {
    /// The point at which the satisfiability proof leaves the matrices.
    pub ch: Challenges,
    /// Before the part.
    pub before: Stage,
    /// After the proof of satisfiability.
    pub after_sat: Stage,
    /// After what is opened then.
    pub mid: Stage,
    /// After the proof of the values of the matrices.
    pub after_eval: Stage,
    /// After the products.
    pub after: Stage,
}

/// The values of the three matrices at a point.
pub open spec fn instance_values(
    i: R1CS,
    rp: Seq<Scalar>,
    rx: Seq<Scalar>,
    ry: Seq<Scalar>,
) -> (Scalar, Scalar, Scalar) {
    (
        list_value(i.a, eq_evals(rp), eq_evals(rx), eq_evals(ry)),
        list_value(i.b, eq_evals(rp), eq_evals(rx), eq_evals(ry)),
        list_value(i.c, eq_evals(rp), eq_evals(rx), eq_evals(ry)),
    )
}

/// The history after the values of the three matrices.
pub open spec fn said_claims(h: History, evals: (Scalar, Scalar, Scalar)) -> History {
    said(
        said(said(h, "Ar_claim"@, evals.0.encoding()), "Br_claim"@, evals.1.encoding()),
        "Cr_claim"@,
        evals.2.encoding(),
    )
}

/// Says the values of the three matrices.
pub(crate) fn append_claims(t: &mut Transcript, evals: &(Scalar, Scalar, Scalar))
    ensures
        history(*final(t)) == said_claims(history(*old(t)), *evals),
{
    append_scalar(t, "Ar_claim", &evals.0);
    append_scalar(t, "Br_claim", &evals.1);
    append_scalar(t, "Cr_claim", &evals.2);
}

/// The coordinates of the instance at which a part is evaluated.
pub open spec fn part_rp(s: int, ch: Challenges) -> Seq<Scalar> {
    if uses_rp(s) {
        ch.rp@
    } else {
        Seq::empty()
    }
}

/// Whether a step for satisfiability was asked for a task, and gave a proof
/// and a point.
pub open spec fn sat_ran<
    P,
    F: Fn(SatJob<'_>, Transcript, RandomTape) -> (P, Challenges, Transcript, RandomTape),
>(
    sat: F,
    task: SatTask,
    g: crate::commitments::Gens,
    before: Stage,
    proof: P,
    ch: Challenges,
    after: Stage,
) -> bool {
    exists|job: SatJob<'_>|
        job.task() == task && job.wf(g) && #[trigger] call_ensures(
            sat,
            (job, before.0, before.1),
            (proof, ch, after.0, after.1),
        )
}

/// Whether a step for the values of matrices was asked, and gave a proof.
pub open spec fn eval_ran<
    E,
    H: Fn(EvalJob<'_>, Transcript, RandomTape) -> (E, Transcript, RandomTape),
>(
    eval: H,
    decomm: R1CSDecommitment,
    gens: R1CSCommitmentGens,
    rx: Seq<Scalar>,
    ry: Seq<Scalar>,
    evals: (Scalar, Scalar, Scalar),
    before: Stage,
    proof: E,
    after: Stage,
) -> bool {
    exists|job: EvalJob<'_>, t: Transcript|
        *job.decomm == decomm && *job.gens == gens && job.rx@ == rx && job.ry@ == ry && job.evals
            == evals && history(t) == said_claims(history(before.0), evals)
            && #[trigger] call_ensures(eval, (job, t, before.1), (proof, after.0, after.1))
}

/// The generators for the products of a part.
pub open spec fn product_gens(inp: ProverInput<'_>, s: int) -> R1CSGens {
    if s == PERM_EXEC_POLY {
        *inp.total_proofs_times_vars_gens
    } else {
        *inp.proofs_times_vars_gens
    }
}

/// Whether a part was proved: the two steps were asked for what the part
/// calls for, in turn with the openings that belong to it.
pub open spec fn part_proved<
    P,
    E,
    F: Fn(SatJob<'_>, Transcript, RandomTape) -> (P, Challenges, Transcript, RandomTape),
    H: Fn(EvalJob<'_>, Transcript, RandomTape) -> (E, Transcript, RandomTape),
>(
    inp: ProverInput<'_>,
    tau: Scalar,
    r: Scalar,
    sat: F,
    eval: H,
    s: int,
    tr: PartTrace,
    proof: PartProof<P, E>,
) -> bool {
    let w = inp.witnesses(tau, r);
    let prog = inp.program(s);
    let rp = part_rp(s, tr.ch);
    let mids = mid_openings(w, tau, r, s, tr.ch.ry@.len());
    let posts = post_openings(w, s);
    let (ps, th1, rh1) = open_all(
        inp.vars_gens.gens_pc@,
        mids,
        history(tr.after_sat.0),
        tr.after_sat.1@,
        mids.len(),
    );
    let (qs, th2, rh2) = open_all(
        product_gens(inp, s).gens_pc@,
        posts,
        history(tr.after_eval.0),
        tr.after_eval.1@,
        posts.len(),
    );
    &&& sat_ran(sat, inp.task(w, s), inp.g(), tr.before, proof.sat, tr.ch, tr.after_sat)
    &&& history(tr.mid.0) == th1
    &&& tr.mid.1@ == rh1
    &&& proof.evals == instance_values(prog.inst@, rp, tr.ch.rx@, tr.ch.ry@)
    &&& eval_ran(
        eval,
        prog.decomm.kept(),
        prog.gens.gens_r1cs_eval,
        rp + tr.ch.rx@,
        tr.ch.ry@,
        proof.evals,
        tr.mid,
        proof.eval,
        tr.after_eval,
    )
    &&& history(tr.after.0) == th2
    &&& tr.after.1@ == rh2
    &&& proofs(proof.openings@) == ps + qs
    &&& proof.values@ == product_values(w, s)
}

/// Whether the point that a step gives has as many coordinates as the
/// matrices call for.
pub open spec fn sized(task: SatTask, ch: Challenges) -> bool {
    &&& task.batch ==> pow2(ch.rp@.len()) == task.inst.num_instances
    &&& pow2(ch.rx@.len()) == task.inst.num_cons
    &&& pow2(ch.ry@.len()) == task.inst.num_vars
}

/// Whether a step for satisfiability can be asked for anything, and always
/// gives a point of the right size.
pub open spec fn sat_sound<
    P,
    F: Fn(SatJob<'_>, Transcript, RandomTape) -> (P, Challenges, Transcript, RandomTape),
>(sat: F) -> bool {
    &&& forall|job: SatJob<'_>, t: Transcript, tape: RandomTape| #[trigger]
        call_requires(sat, (job, t, tape))
    &&& forall|
        job: SatJob<'_>,
        t: Transcript,
        tape: RandomTape,
        out: (P, Challenges, Transcript, RandomTape),
    | #[trigger]
        call_ensures(sat, (job, t, tape), out) ==> sized(job.task(), out.1)
}

/// Whether a step for the values of matrices can be asked for anything.
pub open spec fn eval_sound<
    E,
    H: Fn(EvalJob<'_>, Transcript, RandomTape) -> (E, Transcript, RandomTape),
>(eval: H) -> bool {
    forall|job: EvalJob<'_>, t: Transcript, tape: RandomTape| #[trigger]
        call_requires(eval, (job, t, tape))
}

/// The same numbers.
pub(crate) fn copy_counts(v: &Vec<usize>) -> (r: Vec<usize>)
    ensures
        r@ == v@,
{
    let mut r: Vec<usize> = Vec::new();
    let mut i: usize = 0;
    while i < v.len()
        invariant
            i <= v@.len(),
            r@ == v@.take(i as int),
        decreases v@.len() - i,
    {
        r.push(v[i]);
        i += 1;
        assert(r@ =~= v@.take(i as int));
    }
    assert(v@.take(i as int) =~= v@);
    r
}

/// What the step for satisfiability is asked in a part.
pub(crate) fn part_job<'b>(inp: &'b ProverInput<'_>, w: &'b Witnesses, s: usize) -> (job: SatJob<'b>)
    requires
        s < NUM_PARTS,
        w.wf(inp.g()),
    ensures
        job.task() == inp.task(w.mats(), s as int),
        job.wf(inp.g()),
{
    let n = inp.num_vars;
    let blocks = inp.block_num_instances;
    let exec = inp.consis_num_proofs;
    let ghost m = w.mats();
    if s == CONSIS_CHECK || s == PERM_BLOCK_POLY || s == PERM_EXEC_POLY || s == MEM_BLOCK_POLY {
        let (num_instances, base, bound, counts, inst, gens, witness): (
            usize,
            usize,
            usize,
            Vec<usize>,
            _,
            _,
            _,
        ) = if s == CONSIS_CHECK {
            (
                1,
                inp.consis_check_num_cons_base,
                inp.total_num_proofs_bound,
                vec![exec],
                inp.consis_check.inst.get(),
                inp.total_proofs_times_vars_gens,
                &w.consis_w3,
            )
        } else if s == PERM_BLOCK_POLY {
            (
                blocks,
                inp.perm_poly_num_cons_base,
                inp.block_max_num_proofs_bound,
                copy_counts(inp.block_num_proofs),
                inp.perm_block_poly.inst.get(),
                inp.proofs_times_vars_gens,
                &w.perm_block_w3,
            )
        } else if s == PERM_EXEC_POLY {
            (
                1,
                inp.perm_poly_num_cons_base,
                inp.total_num_proofs_bound,
                vec![exec],
                inp.perm_exec_poly.inst.get(),
                inp.total_proofs_times_vars_gens,
                &w.perm_exec_w3,
            )
        } else {
            (
                blocks,
                inp.perm_poly_num_cons_base,
                inp.block_max_num_proofs_bound,
                copy_counts(inp.block_num_proofs),
                inp.perm_block_poly.inst.get(),
                inp.proofs_times_vars_gens,
                &w.mem_block_w1,
            )
        };
        let job = SatJob::Single(
            SingleJob {
                num_instances,
                num_cons_base: base,
                num_vars: n,
                max_num_proofs: bound,
                num_proofs: counts,
                inst,
                gens,
                witness,
            },
        );
        assert(job.task() =~= inp.task(m, s as int));
        job
    } else {
        let (num_shared, num_instances, max, counts, inst, secs): (
            usize,
            usize,
            usize,
            Vec<usize>,
            _,
            Vec<&'b Vec<Committed>>,
        ) = if s == BLOCK {
            (
                0,
                blocks,
                inp.block_max_num_proofs,
                copy_counts(inp.block_num_proofs),
                inp.block.inst.get(),
                vec![&w.block_vars, &w.block_inputs],
            )
        } else if s == CONSIS_COMB {
            (
                1,
                1,
                exec,
                vec![exec],
                inp.consis_comb.inst.get(),
                vec![&w.perm_w0, &w.exec_inputs, &w.consis_w2, &w.consis_w3],
            )
        } else if s == PERM_PRELIM {
            (0, 1, 1, vec![1], inp.perm_prelim.inst.get(), vec![&w.perm_w0])
        } else if s == PERM_BLOCK_ROOT {
            (
                1,
                blocks,
                inp.block_max_num_proofs,
                copy_counts(inp.block_num_proofs),
                inp.perm_root.inst.get(),
                vec![&w.perm_w0, &w.block_inputs, &w.perm_block_w2, &w.perm_block_w3],
            )
        } else if s == PERM_EXEC_ROOT {
            (
                1,
                1,
                exec,
                vec![exec],
                inp.perm_root.inst.get(),
                vec![&w.perm_w0, &w.exec_inputs, &w.perm_exec_w2, &w.perm_exec_w3],
            )
        } else {
            (
                1,
                blocks,
                inp.block_max_num_proofs,
                copy_counts(inp.block_num_proofs),
                inp.mem_extract.inst.get(),
                vec![&w.perm_w0, &w.mem_block_w1, &w.block_vars, &w.block_inputs],
            )
        };
        let job = SatJob::Batch(
            BatchJob {
                num_secs: secs.len(),
                num_shared,
                num_instances,
                max_num_proofs: max,
                num_proofs: counts,
                num_vars: n,
                inst,
                gens: inp.vars_gens,
                secs,
            },
        );
        assert(sections_of(secs@) =~= inp.task(m, s as int).secs);
        assert(counts@ =~= inp.task(m, s as int).num_proofs);
        assert(job.task() =~= inp.task(m, s as int));
        job
    }
}

/// The constraints of a part.
fn program_at<'a, 'b>(inp: &'b ProverInput<'a>, s: usize) -> (r: &'b crate::statement::Program<'a>)
    ensures
        *r == inp.program(s as int),
{
    if s == BLOCK {
        &inp.block
    } else if s == CONSIS_COMB {
        &inp.consis_comb
    } else if s == CONSIS_CHECK {
        &inp.consis_check
    } else if s == PERM_PRELIM {
        &inp.perm_prelim
    } else if s == PERM_BLOCK_ROOT || s == PERM_EXEC_ROOT {
        &inp.perm_root
    } else if s == PERM_BLOCK_POLY || s == MEM_BLOCK_POLY {
        &inp.perm_block_poly
    } else if s == PERM_EXEC_POLY {
        &inp.perm_exec_poly
    } else {
        &inp.mem_extract
    }
}

/// Opens what is opened between the two steps of a part.
fn open_mid(
    inp: &ProverInput<'_>,
    w: &Witnesses,
    tau: &Scalar,
    r: &Scalar,
    s: usize,
    ry_len: usize,
    t: &mut Transcript,
    tape: &mut RandomTape,
) -> (out: Vec<PolyEvalProof>)
    requires
        inp.wf(),
        w.wf(inp.g()),
        w.mats() == inp.witnesses(*tau, *r),
        s == PERM_PRELIM ==> pow2(ry_len as nat) == inp.num_vars,
    ensures
        ({
            let mids = mid_openings(w.mats(), *tau, *r, s as int, ry_len as nat);
            (proofs(out@), history(*final(t)), final(tape)@) == open_all(
                inp.vars_gens.gens_pc@,
                mids,
                history(*old(t)),
                old(tape)@,
                mids.len(),
            )
        }),
{
    let ghost mids = mid_openings(w.mats(), *tau, *r, s as int, ry_len as nat);
    let ghost th = history(*t);
    let ghost rh = tape@;
    let mut out: Vec<PolyEvalProof> = Vec::new();
    assert(proofs(out@) =~= Seq::<DotLog>::empty());
    if s == PERM_PRELIM {
        proof {
            inp.lemma_exec_fits(w.mats(), *tau, *r);
            assert(w.mats().perm_w0.len() == w.perm_w0@.len());
            assert(w.mats().perm_w0[0] == w.perm_w0@[0].mat());
            assert(w.perm_w0@[0].wf(inp.g()));
            lemma_log2_of_pow2(ry_len as nat);
            if ry_len == 0 {
                vstd::arithmetic::power2::lemma2_to64();
            }
        }
        let poly = &w.perm_w0[0].poly;
        let gens = &inp.vars_gens.gens_pc;
        let _comm = open_next(
            poly,
            &zeros(ry_len),
            tau,
            gens,
            &mut out,
            t,
            tape,
            Ghost(mids),
            Ghost(th),
            Ghost(rh),
        );
        let _comm = open_next(
            poly,
            &corner_point(ry_len, 1),
            r,
            gens,
            &mut out,
            t,
            tape,
            Ghost(mids),
            Ghost(th),
            Ghost(rh),
        );
    }
    out
}

/// Opens the products of a list of matrices.
fn open_products(
    l: &Vec<Committed>,
    gens: &R1CSGens,
    t: &mut Transcript,
    tape: &mut RandomTape,
    g: Ghost<crate::commitments::Gens>,
) -> (res: (Vec<PolyEvalProof>, Vec<Scalar>))
    requires
        crate::committed::all_wf(l@, g@),
        crate::committed::all_fit_gens(crate::committed::mats_of(l@), gens.gens_pc),
        forall|p: int| 0 <= p < l@.len() ==> flat((#[trigger] l@[p]).mat()).len() >= 4,
    ensures
        ({
            let m = crate::committed::mats_of(l@);
            let posts = m.map_values(|x: Seq<Seq<Scalar>>| product_opening(x));
            &&& (proofs(res.0@), history(*final(t)), final(tape)@) == open_all(
                gens.gens_pc@,
                posts,
                history(*old(t)),
                old(tape)@,
                posts.len(),
            )
            &&& res.1@ == m.map_values(|x: Seq<Seq<Scalar>>| flat(x)[3])
        }),
{
    let ghost m = crate::committed::mats_of(l@);
    let ghost posts = m.map_values(|x: Seq<Seq<Scalar>>| product_opening(x));
    let ghost vals = m.map_values(|x: Seq<Seq<Scalar>>| flat(x)[3]);
    let ghost th = history(*t);
    let ghost rh = tape@;
    let mut out: Vec<PolyEvalProof> = Vec::new();
    let mut values: Vec<Scalar> = Vec::new();
    let mut p: usize = 0;
    assert(proofs(out@) =~= Seq::<DotLog>::empty());
    while p < l.len()
        invariant
            p <= l@.len(),
            m == crate::committed::mats_of(l@),
            posts == m.map_values(|x: Seq<Seq<Scalar>>| product_opening(x)),
            vals == m.map_values(|x: Seq<Seq<Scalar>>| flat(x)[3]),
            crate::committed::all_wf(l@, g@),
            crate::committed::all_fit_gens(m, gens.gens_pc),
            forall|j: int| 0 <= j < l@.len() ==> flat((#[trigger] l@[j]).mat()).len() >= 4,
            out@.len() == p,
            values@ == vals.take(p as int),
            (proofs(out@), history(*t), tape@) == open_all(
                gens.gens_pc@,
                posts,
                th,
                rh,
                p as nat,
            ),
        decreases l@.len() - p,
    {
        proof {
            assert(l@[p as int].wf(g@));
            assert(flat(l@[p as int].mat()).len() >= 4);
            assert(m[p as int] == l@[p as int].mat());
            assert(crate::committed::fits_gens(m[p as int], gens.gens_pc));
            lemma_log2_of_pow2(2);
            vstd::arithmetic::power2::lemma2_to64();
            crate::math::lemma_log2_monotone(4, flat(m[p as int]).len());
            assert(posts[p as int] == product_opening(m[p as int]));
        }
        let poly = &l[p].poly;
        let r_len = poly.get_num_vars();
        let value = poly.index(3);
        let _comm = open_next(
            poly,
            &corner_point(r_len, 2),
            &value,
            &gens.gens_pc,
            &mut out,
            t,
            tape,
            Ghost(posts),
            Ghost(th),
            Ghost(rh),
        );
        values.push(value);
        p += 1;
        assert(values@ =~= vals.take(p as int));
    }
    assert(vals.take(p as int) =~= vals);
    (out, values)
}

/// Opens the products that a part leaves.
fn open_post(
    inp: &ProverInput<'_>,
    w: &Witnesses,
    tau: Ghost<Scalar>,
    r: Ghost<Scalar>,
    s: usize,
    t: &mut Transcript,
    tape: &mut RandomTape,
) -> (res: (Vec<PolyEvalProof>, Vec<Scalar>))
    requires
        inp.wf(),
        w.wf(inp.g()),
        w.mats() == inp.witnesses(tau@, r@),
        s < NUM_PARTS,
    ensures
        ({
            let posts = post_openings(w.mats(), s as int);
            &&& (proofs(res.0@), history(*final(t)), final(tape)@) == open_all(
                product_gens(*inp, s as int).gens_pc@,
                posts,
                history(*old(t)),
                old(tape)@,
                posts.len(),
            )
            &&& res.1@ == product_values(w.mats(), s as int)
        }),
{
    proof {
        inp.lemma_blocks_fit(w.mats(), tau@, r@);
        inp.lemma_exec_fits(w.mats(), tau@, r@);
    }
    if s == PERM_BLOCK_POLY {
        proof {
            assert forall|p: int| 0 <= p < w.perm_block_w3@.len() implies flat(
                (#[trigger] w.perm_block_w3@[p]).mat(),
            ).len() >= 4 by {
                assert(w.mats().perm_block_w3[p] == w.perm_block_w3@[p].mat());
            }
        }
        open_products(&w.perm_block_w3, inp.proofs_times_vars_gens, t, tape, Ghost(inp.g()))
    } else if s == PERM_EXEC_POLY {
        proof {
            assert(w.mats().perm_exec_w3.len() == w.perm_exec_w3@.len());
            assert forall|p: int| 0 <= p < w.perm_exec_w3@.len() implies flat(
                (#[trigger] w.perm_exec_w3@[p]).mat(),
            ).len() >= 4 by {
                assert(w.mats().perm_exec_w3[p] == w.perm_exec_w3@[p].mat());
            }
        }
        open_products(
            &w.perm_exec_w3,
            inp.total_proofs_times_vars_gens,
            t,
            tape,
            Ghost(inp.g()),
        )
    } else if s == MEM_BLOCK_POLY {
        proof {
            assert forall|p: int| 0 <= p < w.mem_block_w1@.len() implies flat(
                (#[trigger] w.mem_block_w1@[p]).mat(),
            ).len() >= 4 by {
                assert(w.mats().mem_block_w1[p] == w.mem_block_w1@[p].mat());
            }
        }
        open_products(&w.mem_block_w1, inp.proofs_times_vars_gens, t, tape, Ghost(inp.g()))
    } else {
        let (a, b): (Vec<PolyEvalProof>, Vec<Scalar>) = (Vec::new(), Vec::new());
        proof {
            assert(post_openings(w.mats(), s as int) =~= Seq::<Opening>::empty());
            assert(proofs(a@) =~= Seq::<DotLog>::empty());
            assert(product_values(w.mats(), s as int) =~= b@);
        }
        (a, b)
    }
}

/// Proves one part.
fn prove_part<
    P,
    E,
    F: Fn(SatJob<'_>, Transcript, RandomTape) -> (P, Challenges, Transcript, RandomTape),
    H: Fn(EvalJob<'_>, Transcript, RandomTape) -> (E, Transcript, RandomTape),
>(
    inp: &ProverInput<'_>,
    w: &Witnesses,
    tau: &Scalar,
    r: &Scalar,
    sat: &F,
    eval: &H,
    s: usize,
    t: Transcript,
    tape: RandomTape,
) -> (res: (PartProof<P, E>, Transcript, RandomTape, Ghost<PartTrace>))
    requires
        inp.wf(),
        w.wf(inp.g()),
        w.mats() == inp.witnesses(*tau, *r),
        s < NUM_PARTS,
        sat_sound::<P, F>(*sat),
        eval_sound::<E, H>(*eval),
    ensures
        part_proved(*inp, *tau, *r, *sat, *eval, s as int, res.3@, res.0),
        res.3@.before == (t, tape),
        res.3@.after == (res.1, res.2),
{
    let ghost before = (t, tape);
    let ghost mats = w.mats();
    let job = part_job(inp, w, s);
    let ghost asked = job;
    let (proof, ch, t, tape) = sat(job, t, tape);
    let ghost after_sat = (t, tape);
    proof {
        assert(call_ensures(
            *sat,
            (asked, before.0, before.1),
            (proof, ch, after_sat.0, after_sat.1),
        ));
        assert(sized(asked.task(), ch));
        assert(sat_ran(*sat, inp.task(mats, s as int), inp.g(), before, proof, ch, after_sat));
        assert(crate::statement::evaluable(inp.program(s as int).inst@, uses_rp(s as int)));
        vstd::arithmetic::power2::lemma2_to64();
    }
    let mut t = t;
    let mut tape = tape;
    let mut openings = open_mid(inp, w, tau, r, s, ch.ry.len(), &mut t, &mut tape);
    let ghost ps = proofs(openings@);
    let ghost mid = (t, tape);
    let prog = program_at(inp, s);
    let rp = if s == BLOCK || s == PERM_PRELIM || s == MEM_EXTRACT {
        copy_of(&ch.rp)
    } else {
        Vec::new()
    };
    assert(rp@ =~= part_rp(s as int, ch));
    let evals = prog.inst.get().evaluate(&rp, &ch.rx, &ch.ry);
    append_claims(&mut t, &evals);
    let ghost tm = t;
    let job = EvalJob {
        decomm: prog.decomm.get(),
        rx: concat(&rp, &ch.rx),
        ry: copy_of(&ch.ry),
        evals,
        gens: &prog.gens.gens_r1cs_eval,
    };
    let ghost asked = job;
    let (eval_proof, t, tape) = eval(job, t, tape);
    let ghost after_eval = (t, tape);
    proof {
        assert(call_ensures(*eval, (asked, tm, mid.1), (eval_proof, after_eval.0, after_eval.1)));
        assert(eval_ran(
            *eval,
            prog.decomm.kept(),
            prog.gens.gens_r1cs_eval,
            part_rp(s as int, ch) + ch.rx@,
            ch.ry@,
            evals,
            mid,
            eval_proof,
            after_eval,
        ));
    }
    let mut t = t;
    let mut tape = tape;
    let (more, values) = open_post(
        inp,
        w,
        Ghost(*tau),
        Ghost(*r),
        s,
        &mut t,
        &mut tape,
    );
    let ghost qs = proofs(more@);
    let mut more = more;
    let ghost first = openings@;
    let ghost second = more@;
    openings.append(&mut more);
    assert(proofs(openings@) =~= ps + qs) by {
        assert(openings@ =~= first + second);
    }
    let ghost tr = PartTrace { ch, before, after_sat, mid, after_eval, after: (t, tape) };
    (PartProof { sat: proof, evals, eval: eval_proof, openings, values }, t, tape, Ghost(tr))
}

/// Whether all parts were proved, each from where the one before it ended.
pub open spec fn parts_proved<
    P,
    E,
    F: Fn(SatJob<'_>, Transcript, RandomTape) -> (P, Challenges, Transcript, RandomTape),
    H: Fn(EvalJob<'_>, Transcript, RandomTape) -> (E, Transcript, RandomTape),
>(
    inp: ProverInput<'_>,
    tau: Scalar,
    r: Scalar,
    sat: F,
    eval: H,
    trace: Seq<PartTrace>,
    parts: Seq<PartProof<P, E>>,
) -> bool {
    &&& trace.len() == parts.len()
    &&& forall|s: int|
        0 <= s < parts.len() ==> part_proved(
            inp,
            tau,
            r,
            sat,
            eval,
            s,
            #[trigger] trace[s],
            parts[s],
        )
    &&& forall|s: int| 0 < s < parts.len() ==> (#[trigger] trace[s]).before == trace[s - 1].after
}

/// Proves all parts.
pub(crate) fn prove_parts<
    P,
    E,
    F: Fn(SatJob<'_>, Transcript, RandomTape) -> (P, Challenges, Transcript, RandomTape),
    H: Fn(EvalJob<'_>, Transcript, RandomTape) -> (E, Transcript, RandomTape),
>(
    inp: &ProverInput<'_>,
    w: &Witnesses,
    tau: &Scalar,
    r: &Scalar,
    sat: &F,
    eval: &H,
    t: Transcript,
    tape: RandomTape,
) -> (res: (Vec<PartProof<P, E>>, Transcript, RandomTape, Ghost<Seq<PartTrace>>))
    requires
        inp.wf(),
        w.wf(inp.g()),
        w.mats() == inp.witnesses(*tau, *r),
        sat_sound::<P, F>(*sat),
        eval_sound::<E, H>(*eval),
    ensures
        res.0@.len() == NUM_PARTS,
        parts_proved(*inp, *tau, *r, *sat, *eval, res.3@, res.0@),
        res.3@[0].before == (t, tape),
        res.3@[NUM_PARTS - 1].after == (res.1, res.2),
{
    let ghost first = (t, tape);
    let mut t = t;
    let mut tape = tape;
    let mut parts: Vec<PartProof<P, E>> = Vec::new();
    let ghost mut trace: Seq<PartTrace> = Seq::empty();
    let mut s: usize = 0;
    while s < NUM_PARTS
        invariant
            s <= NUM_PARTS,
            inp.wf(),
            w.wf(inp.g()),
            w.mats() == inp.witnesses(*tau, *r),
            sat_sound::<P, F>(*sat),
            eval_sound::<E, H>(*eval),
            parts@.len() == s,
            parts_proved(*inp, *tau, *r, *sat, *eval, trace, parts@),
            s == 0 ==> (t, tape) == first,
            s > 0 ==> trace[0].before == first && trace[s - 1].after == (t, tape),
        decreases NUM_PARTS - s,
    {
        let (part, t2, tape2, tr) = prove_part(inp, w, tau, r, sat, eval, s, t, tape);
        let ghost was = parts@;
        let ghost old_trace = trace;
        t = t2;
        tape = tape2;
        parts.push(part);
        proof {
            trace = trace.push(tr@);
            assert forall|k: int| 0 <= k < parts@.len() implies part_proved(
                *inp,
                *tau,
                *r,
                *sat,
                *eval,
                k,
                #[trigger] trace[k],
                parts@[k],
            ) by {
                if k < s {
                    assert(trace[k] == old_trace[k]);
                    assert(parts@[k] == was[k]);
                }
            }
            assert forall|k: int| 0 < k < parts@.len() implies (#[trigger] trace[k]).before
                == trace[k - 1].after by {
                if k < s {
                    assert(trace[k] == old_trace[k]);
                }
            }
        }
        s += 1;
    }
    (parts, t, tape, Ghost(trace))
}

} // verus!
