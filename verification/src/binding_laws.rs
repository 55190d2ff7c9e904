//! Transcripts bind what is said: equal histories come from equal statements and
//! equal commitments, and challenges are drawn behind them.
use crate::comms::{said_list, said_two_lists, WitnessComms};
use crate::dense_mlpoly::said_commitment;
use crate::group::{lemma_group_of_encoding, CompressedGroup};
use crate::instance::decoded_list;
use crate::r1csinstance::le_bytes;
use crate::scalar::{lemma_encoding, lemma_encoding_injective, lemma_of_view, Scalar};
use crate::snark_verify::VerifierInput;
use crate::sparse_mlpoly::{said_instance, said_number, InstanceCommitment};
use crate::statement::{said_counts, said_programs, said_statement};
use crate::transcript::{
    challenge, drawn, merlin_challenge, named, said, said_all, said_points, said_vector, History,
};
use vstd::arithmetic::power2::pow2;
use vstd::prelude::*;
use vstd::string::StringSliceAdditionalSpecFns;

verus! {

/// Equal histories end in the same entry, behind equal histories.
proof fn lemma_last_entry(
    a: History,
    x: (bool, Seq<char>, Seq<u8>),
    b: History,
    y: (bool, Seq<char>, Seq<u8>),
)
    requires
        a.push(x) == b.push(y),
    ensures
        a == b,
        x == y,
{
    assert(a.push(x).drop_last() =~= a);
    assert(b.push(y).drop_last() =~= b);
    assert(a.push(x).last() == x);
    assert(b.push(y).last() == y);
}

/// What is said binds what was said before it, and the bytes.
pub proof fn law_said_binds(
    a: History,
    l: Seq<char>,
    x: Seq<u8>,
    b: History,
    m: Seq<char>,
    y: Seq<u8>,
)
    requires
        said(a, l, x) == said(b, m, y),
    ensures
        a == b,
        l == m,
        x == y,
{
    lemma_last_entry(a, (true, l, x), b, (true, m, y));
}

/// A challenge binds what was said before it.
pub proof fn law_drawn_binds(a: History, l: Seq<char>, b: History, m: Seq<char>)
    requires
        drawn(a, l) == drawn(b, m),
    ensures
        a == b,
        l == m,
        challenge(a, l) == challenge(b, m),
{
    lemma_last_entry(
        a,
        (false, l, merlin_challenge(a, l, 64)),
        b,
        (false, m, merlin_challenge(b, m, 64)),
    );
}

proof fn lemma_marks()
    ensures
        "begin_append_vector".spec_bytes().len() == 19,
        "end_append_vector".spec_bytes().len() == 17,
        "poly_commitment_begin".spec_bytes().len() == 21,
{
    reveal_strlit("begin_append_vector");
    reveal_strlit("end_append_vector");
    reveal_strlit("poly_commitment_begin");
    vstd::utf8::is_ascii_chars_encode_utf8("begin_append_vector"@);
    vstd::utf8::is_ascii_chars_encode_utf8("end_append_vector"@);
    vstd::utf8::is_ascii_chars_encode_utf8("poly_commitment_begin"@);
}

proof fn lemma_all_binds(a: History, b: History, l: Seq<char>, s: Seq<Scalar>, t: Seq<Scalar>)
    requires
        said_all(said(a, l, "begin_append_vector".spec_bytes()), l, s) == said_all(
            said(b, l, "begin_append_vector".spec_bytes()),
            l,
            t,
        ),
    ensures
        a == b,
        s == t,
    decreases s.len(),
{
    lemma_marks();
    let mark = "begin_append_vector".spec_bytes();
    let (a1, b1) = (said(a, l, mark), said(b, l, mark));
    if s.len() == 0 && t.len() == 0 {
        law_said_binds(a, l, mark, b, l, mark);
        assert(s =~= t);
    } else if s.len() == 0 {
        lemma_encoding(t.last());
        law_said_binds(a, l, mark, said_all(b1, l, t.drop_last()), l, t.last().encoding());
    } else if t.len() == 0 {
        lemma_encoding(s.last());
        law_said_binds(said_all(a1, l, s.drop_last()), l, s.last().encoding(), b, l, mark);
    } else {
        law_said_binds(
            said_all(a1, l, s.drop_last()),
            l,
            s.last().encoding(),
            said_all(b1, l, t.drop_last()),
            l,
            t.last().encoding(),
        );
        lemma_encoding_injective(s.last(), t.last());
        lemma_all_binds(a, b, l, s.drop_last(), t.drop_last());
        assert(s =~= s.drop_last().push(s.last()));
        assert(t =~= t.drop_last().push(t.last()));
    }
}

/// A list of scalars that is said is bound, with its length.
pub proof fn law_vector_binds(a: History, b: History, l: Seq<char>, s: Seq<Scalar>, t: Seq<Scalar>)
    requires
        said_vector(a, l, s) == said_vector(b, l, t),
    ensures
        a == b,
        s == t,
{
    let (begin, end) = ("begin_append_vector".spec_bytes(), "end_append_vector".spec_bytes());
    law_said_binds(
        said_all(said(a, l, begin), l, s),
        l,
        end,
        said_all(said(b, l, begin), l, t),
        l,
        end,
    );
    lemma_all_binds(a, b, l, s, t);
}

proof fn lemma_points_bind(
    a: History,
    b: History,
    l: Seq<char>,
    s: Seq<CompressedGroup>,
    t: Seq<CompressedGroup>,
)
    requires
        said_points(
            said(a, l, "poly_commitment_begin".spec_bytes()),
            "poly_commitment_share"@,
            s,
        ) == said_points(
            said(b, l, "poly_commitment_begin".spec_bytes()),
            "poly_commitment_share"@,
            t,
        ),
    ensures
        a == b,
        s == t,
    decreases s.len(),
{
    lemma_marks();
    let mark = "poly_commitment_begin".spec_bytes();
    let m = "poly_commitment_share"@;
    let (a1, b1) = (said(a, l, mark), said(b, l, mark));
    if s.len() == 0 && t.len() == 0 {
        law_said_binds(a, l, mark, b, l, mark);
        assert(s =~= t);
    } else if s.len() == 0 {
        lemma_point_bytes(t.last());
        law_said_binds(a, l, mark, said_points(b1, m, t.drop_last()), m, t.last().encoding());
    } else if t.len() == 0 {
        lemma_point_bytes(s.last());
        law_said_binds(said_points(a1, m, s.drop_last()), m, s.last().encoding(), b, l, mark);
    } else {
        law_said_binds(
            said_points(a1, m, s.drop_last()),
            m,
            s.last().encoding(),
            said_points(b1, m, t.drop_last()),
            m,
            t.last().encoding(),
        );
        lemma_group_of_encoding(s.last());
        lemma_group_of_encoding(t.last());
        lemma_points_bind(a, b, l, s.drop_last(), t.drop_last());
        assert(s =~= s.drop_last().push(s.last()));
        assert(t =~= t.drop_last().push(t.last()));
    }
}

proof fn lemma_point_bytes(p: CompressedGroup)
    ensures
        p.encoding().len() == 32,
{
    crate::group::lemma_encoding_len(p);
}

/// A commitment that is said is bound, with the number of its points.
pub proof fn law_commitment_binds(
    a: History,
    b: History,
    l: Seq<char>,
    s: Seq<CompressedGroup>,
    t: Seq<CompressedGroup>,
)
    requires
        said_commitment(a, l, s) == said_commitment(b, l, t),
    ensures
        a == b,
        s == t,
{
    let (begin, end) = ("poly_commitment_begin".spec_bytes(), "poly_commitment_end".spec_bytes());
    let m = "poly_commitment_share"@;
    law_said_binds(
        said_points(said(a, l, begin), m, s),
        l,
        end,
        said_points(said(b, l, begin), m, t),
        l,
        end,
    );
    lemma_points_bind(a, b, l, s, t);
}

/// The bytes of a number determine it.
pub proof fn lemma_le_bytes(x: nat, y: nat, n: nat)
    requires
        le_bytes(x, n) == le_bytes(y, n),
        x < pow2(8 * n),
        y < pow2(8 * n),
    ensures
        x == y,
    decreases n,
{
    vstd::arithmetic::power2::lemma2_to64();
    if n > 0 {
        let m = (n - 1) as nat;
        let (a, b) = (le_bytes(x, n), le_bytes(y, n));
        assert(a[0] == (x % 256) as u8 && b[0] == (y % 256) as u8);
        assert(a.skip(1) =~= le_bytes(x / 256, m));
        assert(b.skip(1) =~= le_bytes(y / 256, m));
        vstd::arithmetic::power2::lemma_pow2_adds(8 * m, 8);
        assert(8 * m + 8 == 8 * n);
        assert(x / 256 < pow2(8 * m)) by (nonlinear_arith)
            requires
                x < pow2(8 * m) * 256,
        ;
        assert(y / 256 < pow2(8 * m)) by (nonlinear_arith)
            requires
                y < pow2(8 * m) * 256,
        ;
        lemma_le_bytes(x / 256, y / 256, m);
    }
}

/// Whether the numbers of a commitment to an instance are machine numbers.
pub open spec fn machine_sized(c: InstanceCommitment) -> bool {
    &&& c.num_cons < pow2(64)
    &&& c.num_vars < pow2(64)
    &&& c.batch_size < pow2(64)
    &&& c.num_ops < pow2(64)
    &&& c.num_mem_cells < pow2(64)
}

proof fn lemma_number_binds(a: History, b: History, l: Seq<char>, x: nat, y: nat)
    requires
        said_number(a, l, x) == said_number(b, l, y),
        x < pow2(64),
        y < pow2(64),
    ensures
        a == b,
        x == y,
{
    law_said_binds(a, l, le_bytes(x, 8), b, l, le_bytes(y, 8));
    lemma_le_bytes(x, y, 8);
}

/// A commitment to an instance that is said is bound: its sizes and both of its
/// commitments.
pub proof fn law_instance_binds(
    a: History,
    b: History,
    c: InstanceCommitment,
    d: InstanceCommitment,
)
    requires
        said_instance(a, c) == said_instance(b, d),
        machine_sized(c),
        machine_sized(d),
    ensures
        a == b,
        c == d,
{
    let (a1, b1) = (
        said_number(a, "num_cons"@, c.num_cons),
        said_number(b, "num_cons"@, d.num_cons),
    );
    let (a2, b2) = (
        said_number(a1, "num_vars"@, c.num_vars),
        said_number(b1, "num_vars"@, d.num_vars),
    );
    let (a3, b3) = (
        said_number(a2, "batch_size"@, c.batch_size),
        said_number(b2, "batch_size"@, d.batch_size),
    );
    let (a4, b4) = (
        said_number(a3, "num_ops"@, c.num_ops),
        said_number(b3, "num_ops"@, d.num_ops),
    );
    let (a5, b5) = (
        said_number(a4, "num_mem_cells"@, c.num_mem_cells),
        said_number(b4, "num_mem_cells"@, d.num_mem_cells),
    );
    let (a6, b6) = (
        said_commitment(a5, "comm_comb_ops"@, c.ops),
        said_commitment(b5, "comm_comb_ops"@, d.ops),
    );
    law_commitment_binds(a6, b6, "comm_comb_mem"@, c.mem, d.mem);
    law_commitment_binds(a5, b5, "comm_comb_ops"@, c.ops, d.ops);
    lemma_number_binds(a4, b4, "num_mem_cells"@, c.num_mem_cells, d.num_mem_cells);
    lemma_number_binds(a3, b3, "num_ops"@, c.num_ops, d.num_ops);
    lemma_number_binds(a2, b2, "batch_size"@, c.batch_size, d.batch_size);
    lemma_number_binds(a1, b1, "num_vars"@, c.num_vars, d.num_vars);
    lemma_number_binds(a, b, "num_cons"@, c.num_cons, d.num_cons);
}

proof fn lemma_programs_bind(
    a: History,
    b: History,
    c: Seq<InstanceCommitment>,
    d: Seq<InstanceCommitment>,
    k: nat,
)
    requires
        said_programs(a, c, k) == said_programs(b, d, k),
        k <= c.len(),
        k <= d.len(),
        forall|i: int| 0 <= i < k ==> machine_sized(#[trigger] c[i]),
        forall|i: int| 0 <= i < k ==> machine_sized(#[trigger] d[i]),
    ensures
        a == b,
        forall|i: int| 0 <= i < k ==> #[trigger] c[i] == d[i],
    decreases k,
{
    if k > 0 {
        let p = (k - 1) as nat;
        assert(machine_sized(c[k - 1]) && machine_sized(d[k - 1]));
        law_instance_binds(said_programs(a, c, p), said_programs(b, d, p), c[k - 1], d[k - 1]);
        lemma_programs_bind(a, b, c, d, p);
    }
}

/// A number that is said as a scalar is bound.
proof fn lemma_count_binds(a: History, b: History, l: Seq<char>, x: nat, y: nat)
    requires
        said(a, l, Scalar::of(x).encoding()) == said(b, l, Scalar::of(y).encoding()),
        x < pow2(64),
        y < pow2(64),
    ensures
        a == b,
        x == y,
{
    vstd::arithmetic::power2::lemma2_to64();
    law_said_binds(a, l, Scalar::of(x).encoding(), b, l, Scalar::of(y).encoding());
    lemma_encoding_injective(Scalar::of(x), Scalar::of(y));
    lemma_of_view(x);
    lemma_of_view(y);
}

proof fn lemma_counts_bind(
    a: History,
    b: History,
    l: Seq<char>,
    s: Seq<usize>,
    t: Seq<usize>,
    k: nat,
)
    requires
        said_counts(a, l, s, k) == said_counts(b, l, t, k),
        k <= s.len(),
        k <= t.len(),
    ensures
        a == b,
        forall|i: int| 0 <= i < k ==> #[trigger] s[i] == t[i],
    decreases k,
{
    vstd::arithmetic::power2::lemma2_to64();
    if k > 0 {
        let p = (k - 1) as nat;
        lemma_count_binds(
            said_counts(a, l, s, p),
            said_counts(b, l, t, p),
            l,
            s[k - 1] as nat,
            t[k - 1] as nat,
        );
        lemma_counts_bind(a, b, l, s, t, p);
    }
}

/// A statement that is said is bound: the commitments to all constraints, the
/// numbers of the first and of the last block, the inputs and the outputs, and
/// the numbers of executions.
pub proof fn law_statement_binds(
    a: History,
    b: History,
    c: Seq<InstanceCommitment>,
    d: Seq<InstanceCommitment>,
    from: (nat, nat),
    to: (nat, nat),
    input: (Seq<Scalar>, Seq<Scalar>),
    output: (Seq<Scalar>, Seq<Scalar>),
    most: (nat, nat),
    s: Seq<usize>,
    t: Seq<usize>,
)
    requires
        said_statement(a, c, from.0, to.0, input.0, output.0, most.0, s) == said_statement(
            b,
            d,
            from.1,
            to.1,
            input.1,
            output.1,
            most.1,
            t,
        ),
        c.len() == d.len(),
        s.len() == t.len(),
        forall|i: int| 0 <= i < c.len() ==> machine_sized(#[trigger] c[i]),
        forall|i: int| 0 <= i < d.len() ==> machine_sized(#[trigger] d[i]),
        from.0 < pow2(64) && from.1 < pow2(64),
        to.0 < pow2(64) && to.1 < pow2(64),
        most.0 < pow2(64) && most.1 < pow2(64),
    ensures
        a == b,
        c == d,
        from.0 == from.1,
        to.0 == to.1,
        input.0 == input.1,
        output.0 == output.1,
        most.0 == most.1,
        s == t,
{
    let name = "Spartan SNARK proof";
    let (a1, b1) = (
        said_programs(named(a, name), c, c.len()),
        said_programs(named(b, name), d, d.len()),
    );
    let (a2, b2) = (
        said(a1, "input_block_num"@, Scalar::of(from.0).encoding()),
        said(b1, "input_block_num"@, Scalar::of(from.1).encoding()),
    );
    let (a3, b3) = (
        said(a2, "output_block_num"@, Scalar::of(to.0).encoding()),
        said(b2, "output_block_num"@, Scalar::of(to.1).encoding()),
    );
    let (a4, b4) = (
        said_vector(a3, "input_list"@, input.0),
        said_vector(b3, "input_list"@, input.1),
    );
    let (a5, b5) = (
        said_vector(a4, "output_list"@, output.0),
        said_vector(b4, "output_list"@, output.1),
    );
    let (a6, b6) = (
        said(a5, "block_max_num_proofs"@, Scalar::of(most.0).encoding()),
        said(b5, "block_max_num_proofs"@, Scalar::of(most.1).encoding()),
    );
    lemma_counts_bind(a6, b6, "block_num_proofs"@, s, t, s.len());
    assert(s =~= t);
    lemma_count_binds(a5, b5, "block_max_num_proofs"@, most.0, most.1);
    law_vector_binds(a4, b4, "output_list"@, output.0, output.1);
    law_vector_binds(a3, b3, "input_list"@, input.0, input.1);
    lemma_count_binds(a2, b2, "output_block_num"@, to.0, to.1);
    lemma_count_binds(a1, b1, "input_block_num"@, from.0, from.1);
    lemma_programs_bind(named(a, name), named(b, name), c, d, c.len());
    assert(c =~= d);
    law_said_binds(a, "protocol-name"@, name.spec_bytes(), b, "protocol-name"@, name.spec_bytes());
}

proof fn lemma_list_binds(
    a: History,
    b: History,
    s: Seq<Seq<CompressedGroup>>,
    t: Seq<Seq<CompressedGroup>>,
    k: nat,
)
    requires
        said_list(a, s, k) == said_list(b, t, k),
        k <= s.len(),
        k <= t.len(),
    ensures
        a == b,
        s.take(k as int) == t.take(k as int),
    decreases k,
{
    if k > 0 {
        let p = (k - 1) as nat;
        law_commitment_binds(
            said_list(a, s, p),
            said_list(b, t, p),
            "poly_commitment"@,
            s[k - 1],
            t[k - 1],
        );
        lemma_list_binds(a, b, s, t, p);
        assert(s.take(k as int) =~= s.take(p as int).push(s[k - 1]));
        assert(t.take(k as int) =~= t.take(p as int).push(t[k - 1]));
    } else {
        assert(s.take(0) =~= t.take(0));
    }
}

proof fn lemma_two_lists_bind(
    a: History,
    b: History,
    s: (Seq<Seq<CompressedGroup>>, Seq<Seq<CompressedGroup>>),
    t: (Seq<Seq<CompressedGroup>>, Seq<Seq<CompressedGroup>>),
    k: nat,
)
    requires
        said_two_lists(a, s.0, s.1, k) == said_two_lists(b, t.0, t.1, k),
        k <= s.0.len(),
        k <= s.1.len(),
        k <= t.0.len(),
        k <= t.1.len(),
    ensures
        a == b,
        s.0.take(k as int) == t.0.take(k as int),
        s.1.take(k as int) == t.1.take(k as int),
    decreases k,
{
    if k > 0 {
        let p = (k - 1) as nat;
        let l = "poly_commitment"@;
        let (a1, b1) = (said_two_lists(a, s.0, s.1, p), said_two_lists(b, t.0, t.1, p));
        law_commitment_binds(
            said_commitment(a1, l, s.0[k - 1]),
            said_commitment(b1, l, t.0[k - 1]),
            l,
            s.1[k - 1],
            t.1[k - 1],
        );
        law_commitment_binds(a1, b1, l, s.0[k - 1], t.0[k - 1]);
        lemma_two_lists_bind(a, b, s, t, p);
        assert(s.0.take(k as int) =~= s.0.take(p as int).push(s.0[k - 1]));
        assert(t.0.take(k as int) =~= t.0.take(p as int).push(t.0[k - 1]));
        assert(s.1.take(k as int) =~= s.1.take(p as int).push(s.1[k - 1]));
        assert(t.1.take(k as int) =~= t.1.take(p as int).push(t.1[k - 1]));
    } else {
        assert(s.0.take(0) =~= t.0.take(0));
        assert(s.1.take(0) =~= t.1.take(0));
    }
}

/// Whether commitments to witnesses are as many as a verifier reads.
pub open spec fn enough(c: WitnessComms, n: nat) -> bool {
    &&& c.block_vars.len() >= n
    &&& c.block_inputs.len() >= n
    &&& c.exec_inputs.len() >= 1
    &&& c.perm_w0.len() >= 1
    &&& c.perm_block_w2.len() >= n
    &&& c.perm_block_w3.len() >= n
    &&& c.perm_exec_w2.len() >= 1
    &&& c.perm_exec_w3.len() >= 1
    &&& c.consis_w2.len() >= 1
    &&& c.consis_w3.len() >= 1
    &&& c.mem_block_w1.len() >= n
}

/// The two challenges of the permutation and consistency checks are drawn behind
/// the whole statement and the commitments to all assignments: where two
/// verifiers have the same history at that point, they were told the same
/// statement and the same commitments.
pub proof fn law_assignments_bind(
    v: VerifierInput<'_>,
    w: VerifierInput<'_>,
    g: History,
    h: History,
    c: WitnessComms,
    d: WitnessComms,
)
    requires
        v.said_assignments(g, c) == w.said_assignments(h, d),
        v.block_num_instances == w.block_num_instances,
        v.block_num_proofs@.len() == w.block_num_proofs@.len(),
        enough(c, v.block_num_instances as nat),
        enough(d, v.block_num_instances as nat),
        forall|i: int| 0 <= i < 9 ==> machine_sized(#[trigger] v.programs()[i]),
        forall|i: int| 0 <= i < 9 ==> machine_sized(#[trigger] w.programs()[i]),
    ensures
        g == h,
        v.block.comm@ == w.block.comm@,
        v.consis_comb.comm@ == w.consis_comb.comm@,
        v.consis_check.comm@ == w.consis_check.comm@,
        v.perm_prelim.comm@ == w.perm_prelim.comm@,
        v.perm_root.comm@ == w.perm_root.comm@,
        v.perm_block_poly.comm@ == w.perm_block_poly.comm@,
        v.perm_exec_poly.comm@ == w.perm_exec_poly.comm@,
        v.mem_extract.comm@ == w.mem_extract.comm@,
        v.mem_addr_comb.comm@ == w.mem_addr_comb.comm@,
        v.input_block_num == w.input_block_num,
        v.output_block_num == w.output_block_num,
        decoded_list(v.input@) == decoded_list(w.input@),
        decoded_list(v.output@) == decoded_list(w.output@),
        v.block_max_num_proofs == w.block_max_num_proofs,
        v.block_num_proofs@ == w.block_num_proofs@,
        c.block_vars.take(v.block_num_instances as int) == d.block_vars.take(
            v.block_num_instances as int,
        ),
        c.block_inputs.take(v.block_num_instances as int) == d.block_inputs.take(
            v.block_num_instances as int,
        ),
        c.exec_inputs[0] == d.exec_inputs[0],
        v.tau(g, c) == w.tau(h, d),
        v.r(g, c) == w.r(h, d),
{
    vstd::arithmetic::power2::lemma2_to64();
    let n = v.block_num_instances as nat;
    let (a1, b1) = (
        said_statement(
            g,
            v.programs(),
            v.input_block_num as nat,
            v.output_block_num as nat,
            decoded_list(v.input@),
            decoded_list(v.output@),
            v.block_max_num_proofs as nat,
            v.block_num_proofs@,
        ),
        said_statement(
            h,
            w.programs(),
            w.input_block_num as nat,
            w.output_block_num as nat,
            decoded_list(w.input@),
            decoded_list(w.output@),
            w.block_max_num_proofs as nat,
            w.block_num_proofs@,
        ),
    );
    let (a2, b2) = (
        said_two_lists(a1, c.block_vars, c.block_inputs, n),
        said_two_lists(b1, d.block_vars, d.block_inputs, n),
    );
    lemma_list_binds(a2, b2, c.exec_inputs, d.exec_inputs, 1);
    assert(c.exec_inputs.take(1)[0] == d.exec_inputs.take(1)[0]);
    lemma_two_lists_bind(
        a1,
        b1,
        (c.block_vars, c.block_inputs),
        (d.block_vars, d.block_inputs),
        n,
    );
    law_statement_binds(
        g,
        h,
        v.programs(),
        w.programs(),
        (v.input_block_num as nat, w.input_block_num as nat),
        (v.output_block_num as nat, w.output_block_num as nat),
        (decoded_list(v.input@), decoded_list(w.input@)),
        (decoded_list(v.output@), decoded_list(w.output@)),
        (v.block_max_num_proofs as nat, w.block_max_num_proofs as nat),
        v.block_num_proofs@,
        w.block_num_proofs@,
    );
    let (p, q) = (v.programs(), w.programs());
    assert(p[0] == q[0] && p[1] == q[1] && p[2] == q[2] && p[3] == q[3] && p[4] == q[4] && p[5]
        == q[5] && p[6] == q[6] && p[7] == q[7] && p[8] == q[8]);
}

/// Everything that follows is drawn behind the commitments to all witnesses:
/// where two verifiers have the same history at that point, they have the same
/// commitments and had the same history before them.
pub proof fn law_witnesses_bind(
    v: VerifierInput<'_>,
    w: VerifierInput<'_>,
    g: History,
    h: History,
    c: WitnessComms,
    d: WitnessComms,
)
    requires
        v.said_witnesses(g, c) == w.said_witnesses(h, d),
        v.block_num_instances == w.block_num_instances,
        enough(c, v.block_num_instances as nat),
        enough(d, v.block_num_instances as nat),
    ensures
        v.said_assignments(g, c) == w.said_assignments(h, d),
        c.perm_w0[0] == d.perm_w0[0],
        c.perm_block_w2.take(v.block_num_instances as int) == d.perm_block_w2.take(
            v.block_num_instances as int,
        ),
        c.perm_block_w3.take(v.block_num_instances as int) == d.perm_block_w3.take(
            v.block_num_instances as int,
        ),
        c.perm_exec_w2[0] == d.perm_exec_w2[0],
        c.perm_exec_w3[0] == d.perm_exec_w3[0],
        c.consis_w2[0] == d.consis_w2[0],
        c.consis_w3[0] == d.consis_w3[0],
        c.mem_block_w1.take(v.block_num_instances as int) == d.mem_block_w1.take(
            v.block_num_instances as int,
        ),
{
    let n = v.block_num_instances as nat;
    let (s, t) = (v.said_assignments(g, c), w.said_assignments(h, d));
    let (s1, t1) = (drawn(s, "challenge_tau"@), drawn(t, "challenge_tau"@));
    let (a0, b0) = (drawn(s1, "challenge_r"@), drawn(t1, "challenge_r"@));
    let (a1, b1) = (said_list(a0, c.perm_w0, 1), said_list(b0, d.perm_w0, 1));
    let (a2, b2) = (
        said_two_lists(a1, c.perm_block_w2, c.perm_block_w3, n),
        said_two_lists(b1, d.perm_block_w2, d.perm_block_w3, n),
    );
    let (a3, b3) = (said_list(a2, c.perm_exec_w2, 1), said_list(b2, d.perm_exec_w2, 1));
    let (a4, b4) = (said_list(a3, c.perm_exec_w3, 1), said_list(b3, d.perm_exec_w3, 1));
    let (a5, b5) = (said_list(a4, c.consis_w2, 1), said_list(b4, d.consis_w2, 1));
    let (a6, b6) = (said_list(a5, c.consis_w3, 1), said_list(b5, d.consis_w3, 1));
    lemma_list_binds(a6, b6, c.mem_block_w1, d.mem_block_w1, n);
    lemma_list_binds(a5, b5, c.consis_w3, d.consis_w3, 1);
    lemma_list_binds(a4, b4, c.consis_w2, d.consis_w2, 1);
    lemma_list_binds(a3, b3, c.perm_exec_w3, d.perm_exec_w3, 1);
    lemma_list_binds(a2, b2, c.perm_exec_w2, d.perm_exec_w2, 1);
    lemma_two_lists_bind(
        a1,
        b1,
        (c.perm_block_w2, c.perm_block_w3),
        (d.perm_block_w2, d.perm_block_w3),
        n,
    );
    lemma_list_binds(a0, b0, c.perm_w0, d.perm_w0, 1);
    law_drawn_binds(s1, "challenge_r"@, t1, "challenge_r"@);
    law_drawn_binds(s, "challenge_tau"@, t, "challenge_tau"@);
    assert(c.perm_w0.take(1)[0] == d.perm_w0.take(1)[0]);
    assert(c.perm_exec_w2.take(1)[0] == d.perm_exec_w2.take(1)[0]);
    assert(c.perm_exec_w3.take(1)[0] == d.perm_exec_w3.take(1)[0]);
    assert(c.consis_w2.take(1)[0] == d.consis_w2.take(1)[0]);
    assert(c.consis_w3.take(1)[0] == d.consis_w3.take(1)[0]);
}

} // verus!
