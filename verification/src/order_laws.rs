//! The order in which a statement and its commitments are said.
use crate::commitments::Gens;
use crate::committed::{mat_commitments, said_pairs};
use crate::comms::{said_list, said_two_lists, WitnessComms};
use crate::instance::decoded_list;
use crate::message_laws::{
    commitment_messages, law_commitment_messages, law_vector_messages, lemma_then, message, spoken,
    vector_messages,
};
use crate::r1csproof::R1CSStatement;
use crate::scalar::Scalar;
use crate::snark_verify::VerifierInput;
use crate::sparse_mlpoly::{plain_commitment, said_instance, InstanceCommitment};
use crate::statement::{said_counts, said_programs, said_statement};
use crate::transcript::{challenge, drawn, named, said, said_vector, History};
use crate::vectors::flat;
use vstd::prelude::*;
use vstd::string::StringSliceAdditionalSpecFns;

verus! {

/// The messages that a list of numbers makes, each as a scalar.
pub open spec fn count_messages(label: Seq<char>, s: Seq<usize>) -> History {
    Seq::new(s.len(), |i: int| (true, label, Scalar::of(s[i] as nat).encoding()))
}

proof fn lemma_counts(h: History, label: Seq<char>, s: Seq<usize>, k: nat)
    requires
        k <= s.len(),
    ensures
        said_counts(h, label, s, k) == h + count_messages(label, s).take(k as int),
    decreases k,
{
    let m = count_messages(label, s);
    if k == 0 {
        assert(h + m.take(0) =~= h);
    } else {
        lemma_counts(h, label, s, (k - 1) as nat);
        assert(h + m.take(k as int) =~= (h + m.take(k - 1)).push(m[k - 1]));
    }
}

/// A statement is said in this order: the name of the protocol, the commitments
/// to the constraints, the numbers of the first and of the last block, inputs,
/// outputs, the largest number of executions, and the numbers of executions.
pub proof fn law_statement_order(
    h: History,
    programs: Seq<InstanceCommitment>,
    input_block_num: nat,
    output_block_num: nat,
    input: Seq<Scalar>,
    output: Seq<Scalar>,
    most: nat,
    counts: Seq<usize>,
)
    ensures
        spoken(
            said_programs(
                h.push(message("protocol-name", "Spartan SNARK proof".spec_bytes())),
                programs,
                programs.len(),
            ),
            said_statement(
                h,
                programs,
                input_block_num,
                output_block_num,
                input,
                output,
                most,
                counts,
            ),
            seq![
                message("input_block_num", Scalar::of(input_block_num).encoding()),
                message("output_block_num", Scalar::of(output_block_num).encoding()),
            ] + vector_messages("input_list"@, input) + vector_messages("output_list"@, output)
                + seq![message("block_max_num_proofs", Scalar::of(most).encoding())]
                + count_messages("block_num_proofs"@, counts),
        ),
        said_programs(h, programs, 0) == h,
        forall|k: int|
            0 <= k < programs.len() ==> said_programs(h, programs, (k + 1) as nat)
                == said_instance(said_programs(h, programs, k as nat), #[trigger] programs[k]),
{
    let h1 = said_programs(named(h, "Spartan SNARK proof"), programs, programs.len());
    let h3 = said(
        said(h1, "input_block_num"@, Scalar::of(input_block_num).encoding()),
        "output_block_num"@,
        Scalar::of(output_block_num).encoding(),
    );
    let m1 = seq![
        message("input_block_num", Scalar::of(input_block_num).encoding()),
        message("output_block_num", Scalar::of(output_block_num).encoding()),
    ];
    assert(spoken(h1, h3, m1));
    law_vector_messages(h3, "input_list"@, input);
    let h4 = said_vector(h3, "input_list"@, input);
    law_vector_messages(h4, "output_list"@, output);
    let h5 = said_vector(h4, "output_list"@, output);
    let h6 = said(h5, "block_max_num_proofs"@, Scalar::of(most).encoding());
    let m4 = seq![message("block_max_num_proofs", Scalar::of(most).encoding())];
    assert(spoken(h5, h6, m4));
    lemma_counts(h6, "block_num_proofs"@, counts, counts.len());
    let m5 = count_messages("block_num_proofs"@, counts);
    assert(m5.take(counts.len() as int) =~= m5);
    let h7 = said_counts(h6, "block_num_proofs"@, counts, counts.len());
    assert(spoken(h6, h7, m5));
    let (m2, m3) = (vector_messages("input_list"@, input), vector_messages("output_list"@, output));
    lemma_then(h1, h3, h4, m1, m2);
    lemma_then(h1, h4, h5, m1 + m2, m3);
    lemma_then(h1, h5, h6, m1 + m2 + m3, m4);
    lemma_then(h1, h6, h7, m1 + m2 + m3 + m4, m5);
}

/// Two lists of commitments are said in turn, a list by itself in order.
pub proof fn law_lists_order(
    h: History,
    a: Seq<Seq<crate::group::CompressedGroup>>,
    b: Seq<Seq<crate::group::CompressedGroup>>,
    k: int,
)
    requires
        0 <= k < a.len(),
        k < b.len(),
    ensures
        said_list(h, a, 0) == h,
        said_two_lists(h, a, b, 0) == h,
        said_list(h, a, (k + 1) as nat) == said_list(h, a, k as nat) + commitment_messages(
            "poly_commitment"@,
            a[k],
        ),
        said_two_lists(h, a, b, (k + 1) as nat) == said_two_lists(h, a, b, k as nat)
            + commitment_messages("poly_commitment"@, a[k]) + commitment_messages(
            "poly_commitment"@,
            b[k],
        ),
{
    law_commitment_messages(said_list(h, a, k as nat), "poly_commitment"@, a[k]);
    let t = said_two_lists(h, a, b, k as nat);
    law_commitment_messages(t, "poly_commitment"@, a[k]);
    law_commitment_messages(
        t + commitment_messages("poly_commitment"@, a[k]),
        "poly_commitment"@,
        b[k],
    );
}

/// The commitments of a proof are said in this order: behind the statement,
/// those to the variables and to the inputs of each block in turn and that to
/// the execution. Then two challenges are drawn. Behind them stand the shared
/// witness, the weighted rows and the accumulators of each block in turn, both
/// of the execution, the weighted halves and their combinations, and the
/// accesses to memory of each block.
pub proof fn law_commitments_order(v: VerifierInput<'_>, h: History, c: WitnessComms)
    requires
        c.exec_inputs.len() == 1,
        c.perm_w0.len() == 1,
        c.perm_exec_w2.len() == 1,
        c.perm_exec_w3.len() == 1,
        c.consis_w2.len() == 1,
        c.consis_w3.len() == 1,
    ensures
        ({
            let n = v.block_num_instances as nat;
            let stated = said_statement(
                h,
                v.programs(),
                v.input_block_num as nat,
                v.output_block_num as nat,
                decoded_list(v.input@),
                decoded_list(v.output@),
                v.block_max_num_proofs as nat,
                v.block_num_proofs@,
            );
            let l = "poly_commitment"@;
            let assigned = said_two_lists(stated, c.block_vars, c.block_inputs, n)
                + commitment_messages(l, c.exec_inputs[0]);
            let asked = drawn(drawn(assigned, "challenge_tau"@), "challenge_r"@);
            let rows = said_two_lists(
                asked + commitment_messages(l, c.perm_w0[0]),
                c.perm_block_w2,
                c.perm_block_w3,
                n,
            );
            let all = rows + commitment_messages(l, c.perm_exec_w2[0]) + commitment_messages(
                l,
                c.perm_exec_w3[0],
            ) + commitment_messages(l, c.consis_w2[0]) + commitment_messages(l, c.consis_w3[0]);
            &&& v.programs() == seq![
                v.block.comm@,
                v.consis_comb.comm@,
                v.consis_check.comm@,
                v.perm_prelim.comm@,
                v.perm_root.comm@,
                v.perm_block_poly.comm@,
                v.perm_exec_poly.comm@,
                v.mem_extract.comm@,
                v.mem_addr_comb.comm@,
            ]
            &&& v.said_assignments(h, c) == assigned
            &&& v.tau(h, c) == challenge(assigned, "challenge_tau"@)
            &&& v.r(h, c) == challenge(drawn(assigned, "challenge_tau"@), "challenge_r"@)
            &&& v.said_witnesses(h, c) == said_list(all, c.mem_block_w1, n)
        }),
{
    let n = v.block_num_instances as nat;
    let stated = said_statement(
        h,
        v.programs(),
        v.input_block_num as nat,
        v.output_block_num as nat,
        decoded_list(v.input@),
        decoded_list(v.output@),
        v.block_max_num_proofs as nat,
        v.block_num_proofs@,
    );
    let l = "poly_commitment"@;
    let h1 = said_two_lists(stated, c.block_vars, c.block_inputs, n);
    law_lists_order(h1, c.exec_inputs, c.exec_inputs, 0);
    let assigned = h1 + commitment_messages(l, c.exec_inputs[0]);
    let asked = drawn(drawn(assigned, "challenge_tau"@), "challenge_r"@);
    law_lists_order(asked, c.perm_w0, c.perm_w0, 0);
    let rows = said_two_lists(
        asked + commitment_messages(l, c.perm_w0[0]),
        c.perm_block_w2,
        c.perm_block_w3,
        n,
    );
    law_lists_order(rows, c.perm_exec_w2, c.perm_exec_w2, 0);
    let t1 = rows + commitment_messages(l, c.perm_exec_w2[0]);
    law_lists_order(t1, c.perm_exec_w3, c.perm_exec_w3, 0);
    let t2 = t1 + commitment_messages(l, c.perm_exec_w3[0]);
    law_lists_order(t2, c.consis_w2, c.consis_w2, 0);
    let t3 = t2 + commitment_messages(l, c.consis_w2[0]);
    law_lists_order(t3, c.consis_w3, c.consis_w3, 0);
}

/// A proof of satisfiability starts with its name and the commitments to the
/// variables and to the inputs of each block in turn, and then that to the
/// execution. The proof about the blocks follows, and then that about the
/// execution, from where the former ended.
pub proof fn law_satisfiability_order(i: R1CSStatement, th: History, rh: History)
    ensures
        ({
            let (b, e) = (i.block, i.consis);
            let start = th.push(message("protocol-name", "R1CS proof".spec_bytes()));
            let (g, ge) = (b.gens.gens_pc@.0, e.gens.gens_pc@.0);
            let said = said_two_lists(
                start,
                mat_commitments(b.vars, g),
                mat_commitments(b.inputs, g),
                b.vars.len(),
            ) + commitment_messages("poly_commitment"@, plain_commitment(flat(e.executed), ge));
            let out = i.proof_view(th, rh);
            let first = b.prove(said, rh);
            b.vars.len() == b.inputs.len() ==> {
                &&& out.comm_vars == mat_commitments(b.vars, g)
                &&& out.comm_io == mat_commitments(b.inputs, g)
                &&& out.comm_exec == plain_commitment(flat(e.executed), ge)
                &&& out.block == first.proof
                &&& out.consis == e.prove(first.th, first.rh).proof
            }
        }),
{
    let (b, e) = (i.block, i.consis);
    let (g, ge) = (b.gens.gens_pc@.0, e.gens.gens_pc@.0);
    let start = named(th, "R1CS proof");
    if b.vars.len() == b.inputs.len() {
        lemma_pairs_said(start, b.vars, b.inputs, g, b.vars.len());
        law_commitment_messages(
            said_pairs(start, b.vars, b.inputs, g, b.vars.len()),
            "poly_commitment"@,
            plain_commitment(flat(e.executed), ge),
        );
    }
}

proof fn lemma_pairs_said(
    h: History,
    a: Seq<Seq<Seq<Scalar>>>,
    b: Seq<Seq<Seq<Scalar>>>,
    g: Gens,
    k: nat,
)
    requires
        k <= a.len(),
        k <= b.len(),
    ensures
        said_pairs(h, a, b, g, k) == said_two_lists(
            h,
            mat_commitments(a, g),
            mat_commitments(b, g),
            k,
        ),
    decreases k,
{
    if k > 0 {
        lemma_pairs_said(h, a, b, g, (k - 1) as nat);
    }
}

} // verus!
