//! What a prover of a program commits to and proves, from its inputs.
use crate::claim_laws::{law_claims_made, made};
use crate::committed::mat_commitments;
use crate::comms::WitnessComms;
use crate::dense_mlpoly::eq_evals;
use crate::jobs::{Challenges, EvalJob, SatJob};
use crate::math::log2_up;
use crate::parts::{part_proved, part_rp, PartProof, PartTrace};
use crate::r1csinstance::list_value;
use crate::random::RandomTape;
use crate::scalar::{le_value, order, sadd, smul, sone, ssub, szero, Scalar};
use crate::section_laws::protocol_sections;
use crate::snark::{snark_proved, SNARK};
use crate::snark_verify::VerifierInput;
use crate::statement::{Program, ProverInput, NUM_PARTS};
use crate::sums::all_canonical;
use crate::transcript::{challenge, drawn, history, merlin_challenge, History};
use crate::vectors::flat;
use crate::weight_laws::{
    law_accumulator_rows, law_consistency_rows, law_half_weighted_rows, law_memory_rows,
    law_shared_row, law_weighted_value, powers_total,
};
use merlin::Transcript;
use vstd::arithmetic::power::pow;
use vstd::prelude::*;
use vstd::string::StringSliceAdditionalSpecFns;

verus! {

/// Whether all values of the assignments of a program are reduced.
pub open spec fn inputs_canonical(inp: ProverInput<'_>) -> bool {
    &&& forall|p: int, q: int|
        0 <= p < inp.inputs().len() && 0 <= q < inp.inputs()[p].len() ==> all_canonical(
            #[trigger] inp.inputs()[p][q],
        )
    &&& forall|q: int| 0 <= q < inp.exec().len() ==> all_canonical(#[trigger] inp.exec()[q])
}

/// The witnesses of a program hold its assignments as they are, and the shared
/// witness, which is `tau`, `r`, and then `r` times the value before.
pub proof fn law_program_shared(inp: ProverInput<'_>, tau: Scalar, r: Scalar, j: int)
    requires
        inp.wf(),
        r.canonical(),
        1 <= j < inp.num_vars,
    ensures
        ({
            let w = inp.witnesses(tau, r);
            &&& w.block_vars == inp.vars()
            &&& w.block_inputs == inp.inputs()
            &&& w.exec_inputs.len() == 1
            &&& w.exec_inputs[0] == inp.exec()
            &&& w.perm_w0.len() == 1
            &&& w.perm_w0[0].len() == 1
            &&& w.perm_w0[0][0].len() == inp.num_vars
            &&& w.perm_w0[0][0][0] == tau
            &&& w.perm_w0[0][0][1] == r
            &&& j + 1 < inp.num_vars ==> w.perm_w0[0][0][j + 1] == smul(w.perm_w0[0][0][j], r)
        }),
{
    law_shared_row(tau, r, inp.num_vars as nat, j);
}

/// The witnesses of the permutation of block `p`, at its copy `q`: the inputs
/// weighted with powers of the challenge, and the accumulator of the factors.
pub proof fn law_program_blocks(
    inp: ProverInput<'_>,
    tau: Scalar,
    r: Scalar,
    p: int,
    q: int,
    j: int,
)
    requires
        inp.wf(),
        inputs_canonical(inp),
        tau.canonical(),
        r.canonical(),
        0 <= p < inp.block_num_instances,
        0 <= q < inp.block_num_proofs@[p],
        0 <= j < inp.num_vars,
    ensures
        ({
            let row = inp.inputs()[p][q];
            let n = inp.block_num_proofs@[p];
            let w2 = inp.witnesses(tau, r).perm_block_w2;
            let w3 = inp.witnesses(tau, r).perm_block_w3;
            &&& w2.len() == inp.block_num_instances
            &&& w3.len() == inp.block_num_instances
            &&& w2[p].len() == n
            &&& w3[p].len() == n
            &&& w2[p][q][j]@ == (pow(r@ as int, j as nat) * row[j]@) % (order() as int)
            &&& w3[p][q].len() == inp.num_vars
            &&& w3[p][q][0] == row[0]
            &&& w3[p][q][1]@ == (row[0]@ * (tau@ - powers_total(
                row,
                0,
                r@ as int,
                0,
                inp.num_vars as nat,
            ))) % (order() as int)
            &&& w3[p][q][2] == smul(w3[p][q][0], w3[p][q][3])
            &&& q == n - 1 ==> w3[p][q][3] == w3[p][q][1]
            &&& q < n - 1 ==> w3[p][q][3] == smul(
                w3[p][q][1],
                ssub(sadd(w3[p][q + 1][2], sone()), w3[p][q + 1][0]),
            )
            &&& j >= 4 ==> w3[p][q][j] == szero()
        }),
{
    assert(inp.block_fits(p));
    let m = inp.inputs()[p];
    let n = inp.block_num_proofs@[p] as nat;
    assert(m[q].len() == inp.num_vars);
    assert(all_canonical(m[q]));
    assert(m[q][j].canonical());
    law_weighted_value(m, r, q, j);
    law_accumulator_rows(m, n, tau, r, inp.num_vars as nat, q);
}

/// The witnesses of the permutation of the execution, at its row `q`.
pub proof fn law_program_execution(inp: ProverInput<'_>, tau: Scalar, r: Scalar, q: int, j: int)
    requires
        inp.wf(),
        inputs_canonical(inp),
        tau.canonical(),
        r.canonical(),
        0 <= q < inp.consis_num_proofs,
        0 <= j < inp.num_vars,
    ensures
        ({
            let row = inp.exec()[q];
            let n = inp.consis_num_proofs;
            let w2 = inp.witnesses(tau, r).perm_exec_w2;
            let w3 = inp.witnesses(tau, r).perm_exec_w3;
            &&& w2.len() == 1
            &&& w3.len() == 1
            &&& w2[0].len() == n
            &&& w3[0].len() == n
            &&& w2[0][q][j]@ == (pow(r@ as int, j as nat) * row[j]@) % (order() as int)
            &&& w3[0][q].len() == inp.num_vars
            &&& w3[0][q][0] == row[0]
            &&& w3[0][q][1]@ == (row[0]@ * (tau@ - powers_total(
                row,
                0,
                r@ as int,
                0,
                inp.num_vars as nat,
            ))) % (order() as int)
            &&& w3[0][q][2] == smul(w3[0][q][0], w3[0][q][3])
            &&& q == n - 1 ==> w3[0][q][3] == w3[0][q][1]
            &&& q < n - 1 ==> w3[0][q][3] == smul(
                w3[0][q][1],
                ssub(sadd(w3[0][q + 1][2], sone()), w3[0][q + 1][0]),
            )
            &&& j >= 4 ==> w3[0][q][j] == szero()
        }),
{
    let m = inp.exec();
    assert(m[q].len() == inp.num_vars);
    assert(all_canonical(m[q]));
    assert(m[q][j].canonical());
    law_weighted_value(m, r, q, j);
    law_accumulator_rows(
        m,
        inp.consis_num_proofs as nat,
        tau,
        r,
        inp.num_vars as nat,
        q,
    );
}

/// The witnesses of the consistency check, at row `q` of the execution: the
/// inputs and the outputs weighted with powers of the challenge, and their sums.
pub proof fn law_program_consistency(inp: ProverInput<'_>, tau: Scalar, r: Scalar, q: int, i: int)
    requires
        inp.wf(),
        inputs_canonical(inp),
        r.canonical(),
        0 <= q < inp.consis_num_proofs,
        1 <= i < inp.input_output_cutoff,
    ensures
        ({
            let row = inp.exec()[q];
            let cutoff = inp.input_output_cutoff as int;
            let (v, x) = (row[0]@ as int, r@ as int);
            let w2 = inp.witnesses(tau, r).consis_w2;
            let w3 = inp.witnesses(tau, r).consis_w3;
            &&& w2.len() == 1
            &&& w3.len() == 1
            &&& w2[0].len() == inp.consis_num_proofs
            &&& w3[0].len() == inp.consis_num_proofs
            &&& w2[0][q][i]@ == (pow(x, i as nat) * row[i]@) % (order() as int)
            &&& w2[0][q][cutoff + i]@ == (pow(x, i as nat) * row[cutoff + i]@) % (order() as int)
            &&& w2[0][q][0] == szero()
            &&& w2[0][q][cutoff] == szero()
            &&& w3[0][q].len() == inp.num_vars
            &&& w3[0][q][0] == row[0]
            &&& w3[0][q][1]@ == ((v + powers_total(row, 0, x, 1, cutoff as nat)) * v) % (
            order() as int)
            &&& w3[0][q][2]@ == ((v + powers_total(row, cutoff, x, 1, cutoff as nat)) * v) % (
            order() as int)
            &&& forall|j: int| 3 <= j < inp.num_vars ==> #[trigger] w3[0][q][j] == szero()
        }),
{
    let m = inp.exec();
    let (n, cutoff, width) = (
        inp.consis_num_proofs as nat,
        inp.input_output_cutoff as nat,
        inp.num_vars as nat,
    );
    assert(m[q].len() == width);
    assert(all_canonical(m[q]));
    law_half_weighted_rows(m, n, r, cutoff, width, q, i);
    law_consistency_rows(m, n, r, cutoff, width, q);
}

/// The memory witness of block `p`, at its copy `q`: for each access the weighted
/// value and the product so far, and the accumulator of the products.
pub proof fn law_program_memory(
    inp: ProverInput<'_>,
    tau: Scalar,
    r: Scalar,
    p: int,
    q: int,
    x: int,
)
    requires
        inp.wf(),
        0 <= p < inp.block_num_instances,
        0 <= q < inp.block_num_proofs@[p],
        0 <= x < inp.block_num_mem_accesses@[p],
    ensures
        ({
            let n = inp.block_num_proofs@[p];
            let accesses = inp.block_num_mem_accesses@[p] as int;
            let mems = inp.mems()[p][q];
            let w = inp.witnesses(tau, r).mem_block_w1;
            &&& w.len() == inp.block_num_instances
            &&& w[p].len() == n
            &&& w[p][q].len() == inp.num_vars
            &&& w[p][q][0] == inp.inputs()[p][q][0]
            &&& w[p][q][2 * x + 4] == smul(r, mems[2 * x + 5])
            &&& w[p][q][2 * x + 5] == smul(
                if x == 0 {
                    w[p][q][0]
                } else {
                    w[p][q][2 * x + 3]
                },
                ssub(ssub(tau, mems[2 * x + 4]), w[p][q][2 * x + 4]),
            )
            &&& w[p][q][1] == w[p][q][2 * accesses + 3]
            &&& w[p][q][2] == smul(w[p][q][0], w[p][q][3])
            &&& q == n - 1 ==> w[p][q][3] == w[p][q][1]
            &&& q < n - 1 ==> w[p][q][3] == smul(
                w[p][q][1],
                ssub(sadd(w[p][q + 1][2], sone()), w[p][q + 1][0]),
            )
            &&& forall|j: int|
                2 * accesses + 4 <= j < inp.num_vars ==> #[trigger] w[p][q][j] == szero()
        }),
{
    assert(inp.block_fits(p));
    law_memory_rows(
        inp.inputs()[p],
        inp.mems()[p],
        inp.block_num_proofs@[p] as nat,
        tau,
        r,
        inp.block_num_mem_accesses@[p] as nat,
        inp.num_vars as nat,
        q,
    );
}

/// The constraints of a part of the protocol, on the side of the prover.
pub open spec fn proved_program<'a>(inp: ProverInput<'a>, s: int) -> Program<'a> {
    if s == 0 {
        inp.block
    } else if s == 1 {
        inp.consis_comb
    } else if s == 2 {
        inp.consis_check
    } else if s == 3 {
        inp.perm_prelim
    } else if s == 4 || s == 6 {
        inp.perm_root
    } else if s == 7 {
        inp.perm_exec_poly
    } else if s == 8 {
        inp.mem_extract
    } else {
        inp.perm_block_poly
    }
}

/// In a proof each part was made by both steps: the first was asked to prove the
/// sections that the protocol names under the constraints of the part, the
/// second the values of the matrices of these constraints at the point that the
/// first left, behind these values, with what opens the commitment to them.
pub proof fn law_proved_parts<
    P,
    E,
    F: Fn(SatJob<'_>, Transcript, RandomTape) -> (P, Challenges, Transcript, RandomTape),
    H: Fn(EvalJob<'_>, Transcript, RandomTape) -> (E, Transcript, RandomTape),
>(
    inp: ProverInput<'_>,
    tau: Scalar,
    r: Scalar,
    sat: F,
    eval: H,
    s: int,
    tr: PartTrace,
    part: PartProof<P, E>,
)
    requires
        0 <= s < 10,
        part_proved(inp, tau, r, sat, eval, s, tr, part),
    ensures
        ({
            let w = inp.witnesses(tau, r);
            let prog = proved_program(inp, s);
            let rp = if s == 0 || s == 3 || s == 8 {
                tr.ch.rp@
            } else {
                Seq::empty()
            };
            let (ep, ex, ey) = (eq_evals(rp), eq_evals(tr.ch.rx@), eq_evals(tr.ch.ry@));
            &&& exists|job: SatJob<'_>|
                job.task() == inp.task(w, s) && job.task().secs == protocol_sections(w, s)
                    && job.task().inst == prog.inst@ && job.wf(inp.g()) && #[trigger] call_ensures(
                    sat,
                    (job, tr.before.0, tr.before.1),
                    (part.sat, tr.ch, tr.after_sat.0, tr.after_sat.1),
                )
            &&& part.evals.0 == list_value(prog.inst@.a, ep, ex, ey)
            &&& part.evals.1 == list_value(prog.inst@.b, ep, ex, ey)
            &&& part.evals.2 == list_value(prog.inst@.c, ep, ex, ey)
            &&& exists|job: EvalJob<'_>, t: Transcript|
                *job.decomm == prog.decomm.kept() && *job.gens == prog.gens.gens_r1cs_eval
                    && job.rx@ == rp + tr.ch.rx@ && job.ry@ == tr.ch.ry@ && job.evals == part.evals
                    && history(t) == history(tr.mid.0).push(
                    (true, "Ar_claim"@, part.evals.0.encoding()),
                ).push((true, "Br_claim"@, part.evals.1.encoding())).push(
                    (true, "Cr_claim"@, part.evals.2.encoding()),
                ) && #[trigger] call_ensures(
                    eval,
                    (job, t, tr.mid.1),
                    (part.eval, tr.after_eval.0, tr.after_eval.1),
                )
            &&& s == 5 ==> part.values@ == w.perm_block_w3.map_values(
                |m: Seq<Seq<Scalar>>| flat(m)[3],
            )
            &&& s == 7 ==> part.values@.len() == 1 && part.values@[0] == flat(w.perm_exec_w3[0])[3]
            &&& s == 9 ==> part.values@ == w.mem_block_w1.map_values(
                |m: Seq<Seq<Scalar>>| flat(m)[3],
            )
        }),
{
    let w = inp.witnesses(tau, r);
    let task = inp.task(w, s);
    let prog = proved_program(inp, s);
    assert(inp.program(s) == prog);
    assert(task.secs =~= protocol_sections(w, s));
    let job = choose|job: SatJob<'_>|
        job.task() == task && job.wf(inp.g()) && #[trigger] call_ensures(
            sat,
            (job, tr.before.0, tr.before.1),
            (part.sat, tr.ch, tr.after_sat.0, tr.after_sat.1),
        );
    assert(job.task().secs == protocol_sections(w, s));
    let rp = part_rp(s, tr.ch);
    let (ej, t) = choose|job: EvalJob<'_>, t: Transcript|
        *job.decomm == prog.decomm.kept() && *job.gens == prog.gens.gens_r1cs_eval && job.rx@ == rp
            + tr.ch.rx@ && job.ry@ == tr.ch.ry@ && job.evals == part.evals && history(t)
            == crate::parts::said_claims(history(tr.mid.0), part.evals) && #[trigger] call_ensures(
            eval,
            (job, t, tr.mid.1),
            (part.eval, tr.after_eval.0, tr.after_eval.1),
        );
    assert(history(t) == history(tr.mid.0).push(
        (true, "Ar_claim"@, part.evals.0.encoding()),
    ).push((true, "Br_claim"@, part.evals.1.encoding())).push(
        (true, "Cr_claim"@, part.evals.2.encoding()),
    ));
}

/// The two challenges are drawn one after the other, from the history behind
/// the statement and the commitments to all assignments.
pub proof fn law_challenges_drawn(
    inp: ProverInput<'_>,
    v: VerifierInput<'_>,
    h: History,
    c: WitnessComms,
)
    ensures
        ({
            let (a, b) = (v.said_assignments(h, c), inp.said_assignments(h));
            let (x, y) = (
                merlin_challenge(a, "challenge_tau"@, 64),
                merlin_challenge(b, "challenge_tau"@, 64),
            );
            let (a1, b1) = (
                a.push((false, "challenge_tau"@, x)),
                b.push((false, "challenge_tau"@, y)),
            );
            &&& v.tau(h, c) == Scalar::of(le_value(x) % order())
            &&& v.r(h, c) == Scalar::of(
                le_value(merlin_challenge(a1, "challenge_r"@, 64)) % order(),
            )
            &&& inp.tau(h) == Scalar::of(le_value(y) % order())
            &&& inp.r(h) == Scalar::of(
                le_value(merlin_challenge(b1, "challenge_r"@, 64)) % order(),
            )
        }),
{
}

/// A proof is made in this order: it commits to the witnesses and says the
/// commitments, proves the ten parts, each from where the one before it ended,
/// and then the claims about inputs and outputs. What hides values is drawn from
/// one tape, which starts from a seed.
pub proof fn law_proof_made<
    P,
    E,
    F: Fn(SatJob<'_>, Transcript, RandomTape) -> (P, Challenges, Transcript, RandomTape),
    H: Fn(EvalJob<'_>, Transcript, RandomTape) -> (E, Transcript, RandomTape),
>(
    inp: ProverInput<'_>,
    h: History,
    sat: F,
    eval: H,
    seed: Scalar,
    trace: Seq<PartTrace>,
    proof: SNARK<P, E>,
    after: History,
    i: int,
)
    requires
        inp.wf(),
        snark_proved(inp, h, sat, eval, seed, trace, proof, after),
        0 <= i < inp.input_output_cutoff - 2,
    ensures
        ({
            let (tau, r, g) = (inp.tau(h), inp.r(h), inp.g());
            let w = inp.witnesses(tau, r);
            let pc = inp.vars_gens.gens_pc@;
            let z = flat(inp.exec());
            let len = log2_up((inp.consis_num_proofs * inp.num_vars) as nat);
            let last = inp.output_block_index * inp.num_vars;
            let cutoff = inp.input_output_cutoff as int;
            let c = proof.comms@;
            let (x, y) = (
                Scalar::of(le_value(inp.input@[i]@)),
                Scalar::of(le_value(inp.output@[i]@)),
            );
            &&& history(trace[0].before.0) == inp.said_witnesses(h)
            &&& trace[0].before.1@ == seq![
                (true, "dom-sep"@, "proof".spec_bytes()),
                (true, "init_randomness"@, seed.encoding()),
            ]
            &&& proof.parts@.len() == 10
            &&& trace.len() == 10
            &&& forall|s: int|
                0 <= s < 10 ==> part_proved(
                    inp,
                    tau,
                    r,
                    sat,
                    eval,
                    s,
                    #[trigger] trace[s],
                    proof.parts@[s],
                )
            &&& forall|s: int| 1 <= s < 10 ==> (#[trigger] trace[s]).before == trace[s - 1].after
            &&& c.block_vars == mat_commitments(inp.vars(), g)
            &&& c.block_inputs == mat_commitments(inp.inputs(), g)
            &&& c.exec_inputs == mat_commitments(seq![inp.exec()], g)
            &&& c.perm_w0 == mat_commitments(w.perm_w0, g)
            &&& c.perm_block_w2 == mat_commitments(w.perm_block_w2, g)
            &&& c.perm_block_w3 == mat_commitments(w.perm_block_w3, g)
            &&& c.perm_exec_w2 == mat_commitments(w.perm_exec_w2, g)
            &&& c.perm_exec_w3 == mat_commitments(w.perm_exec_w3, g)
            &&& c.consis_w2 == mat_commitments(w.consis_w2, g)
            &&& c.consis_w3 == mat_commitments(w.consis_w3, g)
            &&& c.mem_block_w1 == mat_commitments(w.mem_block_w1, g)
            &&& made(pc, z, len, 0, sone(), proof.io_proof.input_valid_proof@)
            &&& made(
                pc,
                z,
                len,
                1,
                Scalar::of(inp.input_block_num as nat),
                proof.io_proof.input_block_num_proof@,
            )
            &&& made(pc, z, len, 2 + i, x, proof.io_proof.input_correctness_proof_list@[i]@)
            &&& made(pc, z, len, last, sone(), proof.io_proof.output_valid_proof@)
            &&& made(
                pc,
                z,
                len,
                last + cutoff + 1,
                Scalar::of(inp.output_block_num as nat),
                proof.io_proof.output_block_num_proof@,
            )
            &&& made(
                pc,
                z,
                len,
                last + cutoff + 2 + i,
                y,
                proof.io_proof.output_correctness_proof_list@[i]@,
            )
        }),
{
    let claim = inp.io_claim();
    let end = trace[NUM_PARTS - 1].after;
    law_claims_made(
        inp.vars_gens.gens_pc@,
        flat(inp.exec()),
        log2_up((inp.consis_num_proofs * inp.num_vars) as nat),
        claim,
        history(end.0),
        end.1@,
        proof.io(),
        after,
    );
    assert(claim.input[i] == Scalar::of(le_value(inp.input@[i]@)));
    assert(claim.output[i] == Scalar::of(le_value(inp.output@[i]@)));
    assert(trace[0].before.1@ =~= seq![
        (true, "dom-sep"@, "proof".spec_bytes()),
        (true, "init_randomness"@, seed.encoding()),
    ]);
}

} // verus!
