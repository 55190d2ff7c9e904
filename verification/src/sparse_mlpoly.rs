//! Commitments to sparse matrices.
//!
//! A matrix is committed to by the lists of its rows, columns and values, with
//! time stamps that tell how often a row or a column was read before.
use crate::dense_mlpoly::{
    left_vars, right_vars, row_commitments, said_commitment, DensePolynomial, PolyCommitment,
    PolyCommitmentGens,
};
use crate::group::CompressedGroup;
use crate::commitments::{derived_gens, gens_bound, Gens};
use crate::math::{
    is_pow2, lemma_log2_of_pow2, lemma_log2_small, lemma_next_pow2, log2_up, log_2, next_pow2,
    next_power_of_two,
};
use crate::r1csinstance::{all_fit, le_bytes, push_u64, R1CSInstance, R1CS};
use crate::scalar::{szero, Scalar};
use crate::sparse::{fits_in, matrices, Entry};
use crate::transcript::{append_message, history, said, History};
use crate::vectors::{append_all, repeated, zeros};
use merlin::Transcript;
use vstd::arithmetic::power2::pow2;
use vstd::prelude::*;

verus! {

/// How often a number occurs in a list.
pub open spec fn occurrences(s: Seq<usize>, a: usize) -> nat
    decreases s.len(),
{
    if s.len() == 0 {
        0
    } else {
        occurrences(s.drop_last(), a) + if s.last() == a {
            1nat
        } else {
            0nat
        }
    }
}

/// For each entry, how often its number occurred before.
pub open spec fn read_stamps(ops: Seq<usize>) -> Seq<nat> {
    Seq::new(ops.len(), |i: int| occurrences(ops.take(i), ops[i]))
}

/// For each number below `cells`, how often it occurs.
pub open spec fn audit_stamps(ops: Seq<usize>, cells: nat) -> Seq<nat> {
    Seq::new(cells, |a: int| occurrences(ops, a as usize))
}

/// Numbers as scalars.
pub open spec fn as_scalars(s: Seq<nat>) -> Seq<Scalar> {
    s.map_values(|x: nat| Scalar::of(x))
}

/// Machine numbers as numbers.
pub open spec fn as_nats(s: Seq<usize>) -> Seq<nat> {
    s.map_values(|x: usize| x as nat)
}

/// A list of scalars with zeros up to the next power of two.
pub open spec fn padded(s: Seq<Scalar>) -> Seq<Scalar> {
    s + repeated(szero(), (next_pow2(s.len()) - s.len()) as nat)
}

/// The addresses that are read, and their time stamps.
pub struct AddrTimestamps {
    /// The addresses.
    pub ops_addr: Vec<usize>,
    /// How often each address was read before.
    pub read_ts: Vec<usize>,
    /// How often each cell was read in the end.
    pub audit_ts: Vec<usize>,
}

impl AddrTimestamps {
    /// The addresses.
    pub open spec fn ops(self) -> Seq<usize> {
        self.ops_addr@
    }

    /// How often each address was read before.
    pub open spec fn reads(self) -> Seq<usize> {
        self.read_ts@
    }

    /// How often each cell is read in all.
    pub open spec fn audits(self) -> Seq<usize> {
        self.audit_ts@
    }

    /// The time stamps are those of the addresses.
    pub open spec fn wf(self, cells: nat) -> bool {
        &&& as_nats(self.reads()) == read_stamps(self.ops())
        &&& as_nats(self.audits()) == audit_stamps(self.ops(), cells)
    }

    /// Stamps a list of addresses.
    pub fn new(num_cells: usize, ops_addr: Vec<usize>) -> (r: AddrTimestamps)
        requires
            forall|i: int| 0 <= i < ops_addr@.len() ==> #[trigger] ops_addr@[i] < num_cells,
        ensures
            r.ops() == ops_addr@,
            r.wf(num_cells as nat),
    {
        let mut audit_ts: Vec<usize> = vec![0; num_cells];
        let mut read_ts: Vec<usize> = Vec::new();
        let n: usize = ops_addr.len();
        let mut i: usize = 0;
        while i < n
            invariant
                i <= n,
                n == ops_addr@.len(),
                forall|j: int| 0 <= j < ops_addr@.len() ==> #[trigger] ops_addr@[j] < num_cells,
                audit_ts@.len() == num_cells,
                read_ts@.len() == i,
                forall|a: int|
                    0 <= a < num_cells ==> #[trigger] audit_ts@[a] == occurrences(
                        ops_addr@.take(i as int),
                        a as usize,
                    ),
                forall|a: int| 0 <= a < num_cells ==> #[trigger] audit_ts@[a] <= i,
                forall|j: int|
                    0 <= j < i ==> #[trigger] read_ts@[j] == occurrences(
                        ops_addr@.take(j),
                        ops_addr@[j],
                    ),
            decreases n - i,
        {
            let addr = ops_addr[i];
            let r_ts = audit_ts[addr];
            read_ts.push(r_ts);
            audit_ts.set(addr, r_ts + 1);
            i += 1;
            assert(ops_addr@.take(i as int).drop_last() =~= ops_addr@.take(i - 1));
        }
        assert(ops_addr@.take(n as int) =~= ops_addr@);
        let r = AddrTimestamps { ops_addr, read_ts, audit_ts };
        assert(as_nats(r.reads()) =~= read_stamps(r.ops()));
        assert(as_nats(r.audits()) =~= audit_stamps(r.ops(), num_cells as nat));
        r
    }
}

/// Appends numbers as scalars.
fn push_numbers(out: &mut Vec<Scalar>, s: &Vec<usize>)
    ensures
        final(out)@ == old(out)@ + as_scalars(as_nats(s@)),
{
    let ghost before = out@;
    let ghost all = as_scalars(as_nats(s@));
    let mut i: usize = 0;
    while i < s.len()
        invariant
            i <= s@.len(),
            all == as_scalars(as_nats(s@)),
            out@ == before + all.take(i as int),
        decreases s@.len() - i,
    {
        out.push(Scalar::from_u64(s[i] as u64));
        i += 1;
        assert(out@ =~= before + all.take(i as int));
    }
    assert(all.take(i as int) =~= all);
}

/// Appends zeros up to the next power of two.
fn pad(v: Vec<Scalar>) -> (r: Vec<Scalar>)
    requires
        next_pow2(v@.len()) <= usize::MAX,
    ensures
        r@ == padded(v@),
{
    proof {
        lemma_next_pow2(v@.len());
    }
    let mut r = v;
    let n: usize = next_power_of_two(r.len());
    let fill = zeros(n - r.len());
    append_all(&mut r, &fill);
    r
}

/// The entries of matrices one below the other: the rows of the `p`-th start
/// at `p` times the height.
pub open spec fn stacked(l: Seq<Seq<Entry>>, height: nat) -> Seq<Entry>
    decreases l.len(),
{
    if l.len() == 0 {
        Seq::empty()
    } else {
        stacked(l.drop_last(), height) + l.last().map_values(
            |e: Entry| (((l.len() - 1) * height + e.0) as usize, e.1, e.2),
        )
    }
}

/// The number of entries of the fullest of three matrices, rounded up to a
/// power of two.
pub open spec fn ops_len(i: R1CS) -> nat {
    let (a, b, c) = (
        stacked(i.a, i.num_cons).len(),
        stacked(i.b, i.num_cons).len(),
        stacked(i.c, i.num_cons).len(),
    );
    next_pow2(
        if a >= b && a >= c {
            a
        } else if b >= c {
            b
        } else {
            c
        },
    )
}

/// The number of cells of the memory that is read.
pub open spec fn mem_cells(i: R1CS) -> nat {
    if i.num_instances * i.num_cons > i.num_vars {
        i.num_instances * i.num_cons
    } else {
        i.num_vars
    }
}

/// The rows of entries, with zeros up to `n`.
pub open spec fn row_list(m: Seq<Entry>, n: nat) -> Seq<usize> {
    Seq::new(
        n,
        |i: int|
            if i < m.len() {
                m[i].0
            } else {
                0
            },
    )
}

/// The columns of entries, with zeros up to `n`.
pub open spec fn col_list(m: Seq<Entry>, n: nat) -> Seq<usize> {
    Seq::new(
        n,
        |i: int|
            if i < m.len() {
                m[i].1
            } else {
                0
            },
    )
}

/// The values of entries, with zeros up to `n`.
pub open spec fn val_list(m: Seq<Entry>, n: nat) -> Seq<Scalar> {
    Seq::new(
        n,
        |i: int|
            if i < m.len() {
                m[i].2
            } else {
                szero()
            },
    )
}

/// The rows that an instance reads.
pub open spec fn row_ops(i: R1CS) -> Seq<usize> {
    row_list(stacked(i.a, i.num_cons), ops_len(i)) + row_list(
        stacked(i.b, i.num_cons),
        ops_len(i),
    ) + row_list(stacked(i.c, i.num_cons), ops_len(i))
}

/// The columns that an instance reads.
pub open spec fn col_ops(i: R1CS) -> Seq<usize> {
    col_list(stacked(i.a, i.num_cons), ops_len(i)) + col_list(
        stacked(i.b, i.num_cons),
        ops_len(i),
    ) + col_list(stacked(i.c, i.num_cons), ops_len(i))
}

/// The values of an instance.
pub open spec fn op_values(i: R1CS) -> Seq<Scalar> {
    val_list(stacked(i.a, i.num_cons), ops_len(i)) + val_list(
        stacked(i.b, i.num_cons),
        ops_len(i),
    ) + val_list(stacked(i.c, i.num_cons), ops_len(i))
}

/// The values of the polynomial of all reads: rows and their stamps, columns
/// and their stamps, and values.
pub open spec fn comb_ops_values(i: R1CS) -> Seq<Scalar> {
    padded(
        as_scalars(as_nats(row_ops(i))) + as_scalars(read_stamps(row_ops(i))) + as_scalars(
            as_nats(col_ops(i)),
        ) + as_scalars(read_stamps(col_ops(i))) + op_values(i),
    )
}

/// The values of the polynomial of the final stamps.
pub open spec fn comb_mem_values(i: R1CS) -> Seq<Scalar> {
    as_scalars(audit_stamps(row_ops(i), mem_cells(i))) + as_scalars(
        audit_stamps(col_ops(i), mem_cells(i)),
    )
}

/// The commitment to a polynomial without blinds.
pub open spec fn plain_commitment(z: Seq<Scalar>, gens: Gens) -> Seq<
    CompressedGroup,
> {
    row_commitments(z, repeated(szero(), pow2(left_vars(log2_up(z.len())))), gens)
}

/// Generators for commitments to sparse matrices.
pub struct R1CSCommitmentGens {
    /// For the reads.
    pub gens_ops: PolyCommitmentGens,
    /// For the final stamps.
    pub gens_mem: PolyCommitmentGens,
    /// For the values that are read.
    pub gens_derefs: PolyCommitmentGens,
}

/// The number of coordinates of the polynomial of the reads of `n` entries in
/// each of three matrices.
pub open spec fn ops_vars(n: nat) -> nat {
    log2_up(next_pow2(n)) + 4
}

/// The number of coordinates of the polynomial of the final stamps.
pub open spec fn mem_vars(num_instances: nat, num_cons: nat, num_vars: nat) -> nat {
    let x = log2_up(num_instances) + log2_up(num_cons);
    let y = log2_up(num_vars);
    if x > y {
        x + 1
    } else {
        y + 1
    }
}

/// The number of coordinates of the polynomial of the values that are read.
pub open spec fn deref_vars(n: nat) -> nat {
    log2_up(next_pow2(n)) + 3
}

/// Whether generators of these sizes can be derived.
pub open spec fn gens_derivable(
    num_instances: nat,
    num_cons: nat,
    num_vars: nat,
    num_nz_entries: nat,
) -> bool {
    &&& num_instances > 0
    &&& num_cons > 0
    &&& num_vars > 0
    &&& next_pow2(num_nz_entries) <= usize::MAX
    &&& pow2(right_vars(ops_vars(num_nz_entries))) < gens_bound()
    &&& pow2(right_vars(mem_vars(num_instances, num_cons, num_vars))) < gens_bound()
    &&& pow2(right_vars(deref_vars(num_nz_entries))) < gens_bound()
}

/// The generators for columns and for a value that a label yields for
/// polynomials of `vars` coordinates.
pub open spec fn derived_poly_gens(label: Seq<u8>, vars: nat) -> (Gens, Gens) {
    let n = pow2(right_vars(vars));
    let all = derived_gens(label, n + 1);
    (
        Gens { g: all.g.take(n as int), h: all.h },
        Gens { g: all.g.skip(n as int), h: all.h },
    )
}

impl R1CSCommitmentGens {
    /// Derives generators from a label, for instances of the given sizes with
    /// at most `num_nz_entries` entries in each of the three matrices.
    pub fn new(
        label: &'static [u8],
        num_instances: usize,
        num_cons: usize,
        num_vars: usize,
        num_nz_entries: usize,
    ) -> (r: R1CSCommitmentGens)
        requires
            gens_derivable(
                num_instances as nat,
                num_cons as nat,
                num_vars as nat,
                num_nz_entries as nat,
            ),
        ensures
            r.gens_ops.fits(ops_vars(num_nz_entries as nat)),
            r.gens_mem.fits(mem_vars(num_instances as nat, num_cons as nat, num_vars as nat)),
            r.gens_derefs.fits(deref_vars(num_nz_entries as nat)),
            r.gens_ops@ == derived_poly_gens(label@, ops_vars(num_nz_entries as nat)),
            r.gens_mem@ == derived_poly_gens(
                label@,
                mem_vars(num_instances as nat, num_cons as nat, num_vars as nat),
            ),
            r.gens_derefs@ == derived_poly_gens(label@, deref_vars(num_nz_entries as nat)),
    {
        proof {
            lemma_log2_small(num_instances);
            lemma_log2_small(num_cons);
            lemma_log2_small(num_vars);
            lemma_next_pow2(num_nz_entries as nat);
        }
        let n = next_power_of_two(num_nz_entries);
        proof {
            lemma_log2_small(n);
        }
        let ops = log_2(n) + 4;
        let derefs = log_2(n) + 3;
        let x = log_2(num_instances) + log_2(num_cons);
        let y = log_2(num_vars);
        let mem = if x > y { x + 1 } else { y + 1 };
        R1CSCommitmentGens {
            gens_ops: PolyCommitmentGens::new(ops, label),
            gens_mem: PolyCommitmentGens::new(mem, label),
            gens_derefs: PolyCommitmentGens::new(derefs, label),
        }
    }
}

/// A commitment to an instance.
pub struct R1CSCommitment {
    /// The number of constraints of an instance.
    pub num_cons: usize,
    /// The number of columns of an instance.
    pub num_vars: usize,
    /// The number of matrices of an instance.
    pub batch_size: usize,
    /// The number of reads of a matrix.
    pub num_ops: usize,
    /// The number of cells of the memory.
    pub num_mem_cells: usize,
    /// The commitment to the reads.
    pub comm_comb_ops: PolyCommitment,
    /// The commitment to the final stamps.
    pub comm_comb_mem: PolyCommitment,
}

/// What an `R1CSCommitment` holds.
#[verifier::ext_equal]
pub struct InstanceCommitment {
    /// The number of constraints of an instance.
    pub num_cons: nat,
    /// The number of values of an assignment.
    pub num_vars: nat,
    /// The number of matrices of an instance.
    pub batch_size: nat,
    /// The number of reads of a matrix.
    pub num_ops: nat,
    /// The number of cells of the memory.
    pub num_mem_cells: nat,
    /// The commitment to the reads.
    pub ops: Seq<CompressedGroup>,
    /// The commitment to the final stamps.
    pub mem: Seq<CompressedGroup>,
}

impl View for R1CSCommitment {
    type V = InstanceCommitment;

    open spec fn view(&self) -> InstanceCommitment {
        InstanceCommitment {
            num_cons: self.num_cons as nat,
            num_vars: self.num_vars as nat,
            batch_size: self.batch_size as nat,
            num_ops: self.num_ops as nat,
            num_mem_cells: self.num_mem_cells as nat,
            ops: self.comm_comb_ops@,
            mem: self.comm_comb_mem@,
        }
    }
}

/// The history after a number.
pub open spec fn said_number(h: History, label: Seq<char>, x: nat) -> History {
    said(h, label, le_bytes(x, 8))
}

/// The history after a commitment to an instance.
pub open spec fn said_instance(h: History, c: InstanceCommitment) -> History {
    let h1 = said_number(said_number(h, "num_cons"@, c.num_cons), "num_vars"@, c.num_vars);
    let h2 = said_number(
        said_number(said_number(h1, "batch_size"@, c.batch_size), "num_ops"@, c.num_ops),
        "num_mem_cells"@,
        c.num_mem_cells,
    );
    said_commitment(said_commitment(h2, "comm_comb_ops"@, c.ops), "comm_comb_mem"@, c.mem)
}

/// Says a number.
pub(crate) fn append_number(t: &mut Transcript, label: &'static str, x: usize)
    ensures
        history(*final(t)) == said_number(history(*old(t)), label@, x as nat),
{
    let mut bytes: Vec<u8> = Vec::new();
    push_u64(&mut bytes, x as u64);
    proof {
        assert(bytes@ =~= le_bytes(x as nat, 8));
        lemma_le_bytes_len(x as nat, 8);
    }
    append_message(t, label, bytes.as_slice());
}

/// The bytes of a number are as many as asked for.
pub proof fn lemma_le_bytes_len(x: nat, n: nat)
    ensures
        le_bytes(x, n).len() == n,
    decreases n,
{
    if n > 0 {
        lemma_le_bytes_len(x / 256, (n - 1) as nat);
    }
}

impl R1CSCommitment {
    /// Says the commitment. The label has no part in it.
    pub fn append_to_transcript(&self, _label: &'static str, t: &mut Transcript)
        ensures
            history(*final(t)) == said_instance(history(*old(t)), self@),
    {
        append_number(t, "num_cons", self.num_cons);
        append_number(t, "num_vars", self.num_vars);
        append_number(t, "batch_size", self.batch_size);
        append_number(t, "num_ops", self.num_ops);
        append_number(t, "num_mem_cells", self.num_mem_cells);
        self.comm_comb_ops.append_to_transcript("comm_comb_ops", t);
        self.comm_comb_mem.append_to_transcript("comm_comb_mem", t);
    }
}

/// What opens a commitment to an instance.
pub struct R1CSDecommitment {
    /// The rows that are read.
    pub row: AddrTimestamps,
    /// The columns that are read.
    pub col: AddrTimestamps,
    /// The values of the entries.
    pub val: Vec<Scalar>,
    /// The polynomial of the reads.
    pub comb_ops: DensePolynomial,
    /// The polynomial of the final stamps.
    pub comb_mem: DensePolynomial,
}

/// What an `AddrTimestamps` holds.
#[verifier::ext_equal]
pub struct Stamps {
    /// The addresses.
    pub ops: Seq<nat>,
    /// How often each address was read before.
    pub reads: Seq<nat>,
    /// How often each cell was read in the end.
    pub audits: Seq<nat>,
}

/// What an `R1CSDecommitment` holds.
#[verifier::ext_equal]
pub struct InstanceDecommitment {
    /// The rows that are read.
    pub row: Stamps,
    /// The columns that are read.
    pub col: Stamps,
    /// The values of the entries.
    pub val: Seq<Scalar>,
    /// The polynomial of the reads.
    pub ops: Seq<Scalar>,
    /// The polynomial of the final stamps.
    pub mem: Seq<Scalar>,
}

impl View for AddrTimestamps {
    type V = Stamps;

    open spec fn view(&self) -> Stamps {
        Stamps {
            ops: as_nats(self.ops()),
            reads: as_nats(self.reads()),
            audits: as_nats(self.audits()),
        }
    }
}

impl View for R1CSDecommitment {
    type V = InstanceDecommitment;

    open spec fn view(&self) -> InstanceDecommitment {
        InstanceDecommitment {
            row: self.row@,
            col: self.col@,
            val: self.val@,
            ops: self.comb_ops@,
            mem: self.comb_mem@,
        }
    }
}

/// The stamps of a list of addresses.
pub open spec fn stamped(ops: Seq<usize>, cells: nat) -> Stamps {
    Stamps { ops: as_nats(ops), reads: read_stamps(ops), audits: audit_stamps(ops, cells) }
}

/// What opens the commitment to an instance.
pub open spec fn instance_decommitment(i: R1CS) -> InstanceDecommitment {
    InstanceDecommitment {
        row: stamped(row_ops(i), mem_cells(i)),
        col: stamped(col_ops(i), mem_cells(i)),
        val: op_values(i),
        ops: comb_ops_values(i),
        mem: comb_mem_values(i),
    }
}

/// The commitment to an instance, and what opens it.
pub open spec fn encoded_instance(i: R1CS, gens: R1CSCommitmentGens) -> (
    InstanceCommitment,
    InstanceDecommitment,
) {
    (instance_commitment(i, gens.gens_ops@.0, gens.gens_mem@.0), instance_decommitment(i))
}

/// A commitment, and what opens it, depend on the matrices and on the
/// generators alone: nothing is drawn at random.
pub proof fn law_encoding_determined(
    i: R1CS,
    gens: R1CSCommitmentGens,
    others: R1CSCommitmentGens,
)
    requires
        gens.gens_ops@ == others.gens_ops@,
        gens.gens_mem@ == others.gens_mem@,
    ensures
        encoded_instance(i, gens) == encoded_instance(i, others),
{
}

/// The commitment to an instance.
pub open spec fn instance_commitment(i: R1CS, gens_ops: Gens, gens_mem: Gens) -> InstanceCommitment {
    InstanceCommitment {
        num_cons: i.num_cons,
        num_vars: i.num_vars,
        batch_size: 3,
        num_ops: ops_len(i),
        num_mem_cells: mem_cells(i),
        ops: plain_commitment(comb_ops_values(i), gens_ops),
        mem: plain_commitment(comb_mem_values(i), gens_mem),
    }
}

/// Whether an instance can be committed to with the given generators.
pub open spec fn committable(i: R1CS, gens: R1CSCommitmentGens) -> bool {
    &&& i.in_range()
    &&& is_pow2(i.num_instances)
    &&& is_pow2(i.num_cons)
    &&& is_pow2(i.num_vars)
    &&& 2 * mem_cells(i) <= usize::MAX
    &&& next_pow2(15 * ops_len(i)) <= usize::MAX
    &&& gens.gens_ops.fits(log2_up(next_pow2(15 * ops_len(i))))
    &&& gens.gens_mem.fits(log2_up(2 * mem_cells(i)))
}

/// The entries of matrices one below the other.
fn stack(l: &Vec<Vec<Entry>>, height: usize, width: usize) -> (r: Vec<Entry>)
    requires
        all_fit(matrices(l@), height as nat, width as nat),
        l@.len() * height <= usize::MAX,
    ensures
        r@ == stacked(matrices(l@), height as nat),
        fits_in(r@, l@.len() * height as nat, width as nat),
{
    let ghost list = matrices(l@);
    let mut r: Vec<Entry> = Vec::new();
    let mut p: usize = 0;
    let mut base: usize = 0;
    while p < l.len()
        invariant
            p <= l@.len(),
            list == matrices(l@),
            all_fit(list, height as nat, width as nat),
            l@.len() * height <= usize::MAX,
            base == p * height,
            r@ == stacked(list.take(p as int), height as nat),
            fits_in(r@, base as nat, width as nat),
        decreases l@.len() - p,
    {
        let m = &l[p];
        assert(fits_in(list[p as int], height as nat, width as nat));
        assert((p + 1) * height == p * height + height && (p + 1) * height <= l@.len() * height)
            by (nonlinear_arith)
            requires
                0 <= p < l@.len(),
                0 <= height,
        ;
        let ghost was = r@;
        let ghost shift = |e: Entry| ((p * height + e.0) as usize, e.1, e.2);
        let mut i: usize = 0;
        while i < m.len()
            invariant
                i <= m@.len(),
                fits_in(m@, height as nat, width as nat),
                base == p * height,
                base + height <= usize::MAX,
                shift == (|e: Entry| ((p * height + e.0) as usize, e.1, e.2)),
                r@ == was + m@.map_values(shift).take(i as int),
                fits_in(r@, (base + height) as nat, width as nat),
            decreases m@.len() - i,
        {
            let (x, y, v) = m[i];
            assert(m@[i as int].0 < height);
            r.push((base + x, y, v));
            i += 1;
            assert(r@ =~= was + m@.map_values(shift).take(i as int));
        }
        p += 1;
        base = base + height;
        proof {
            let next = list.take(p as int);
            assert(next.drop_last() =~= list.take(p - 1));
            assert(next.last() == m@);
            assert(m@.map_values(shift) =~= next.last().map_values(
                |e: Entry| (((next.len() - 1) * height as nat + e.0) as usize, e.1, e.2),
            ));
            assert(m@.map_values(shift).take(i as int) =~= m@.map_values(shift));
        }
    }
    assert(list.take(p as int) =~= list);
    r
}

fn push_rows(out: &mut Vec<usize>, m: &Vec<Entry>, n: usize)
    ensures
        final(out)@ == old(out)@ + row_list(m@, n as nat),
{
    let ghost before = out@;
    let mut i: usize = 0;
    while i < n
        invariant
            i <= n,
            out@ == before + row_list(m@, n as nat).take(i as int),
        decreases n - i,
    {
        out.push(
            if i < m.len() {
                m[i].0
            } else {
                0
            },
        );
        i += 1;
        assert(out@ =~= before + row_list(m@, n as nat).take(i as int));
    }
    assert(row_list(m@, n as nat).take(i as int) =~= row_list(m@, n as nat));
}

fn push_cols(out: &mut Vec<usize>, m: &Vec<Entry>, n: usize)
    ensures
        final(out)@ == old(out)@ + col_list(m@, n as nat),
{
    let ghost before = out@;
    let mut i: usize = 0;
    while i < n
        invariant
            i <= n,
            out@ == before + col_list(m@, n as nat).take(i as int),
        decreases n - i,
    {
        out.push(
            if i < m.len() {
                m[i].1
            } else {
                0
            },
        );
        i += 1;
        assert(out@ =~= before + col_list(m@, n as nat).take(i as int));
    }
    assert(col_list(m@, n as nat).take(i as int) =~= col_list(m@, n as nat));
}

fn push_vals(out: &mut Vec<Scalar>, m: &Vec<Entry>, n: usize)
    ensures
        final(out)@ == old(out)@ + val_list(m@, n as nat),
{
    let ghost before = out@;
    let mut i: usize = 0;
    while i < n
        invariant
            i <= n,
            out@ == before + val_list(m@, n as nat).take(i as int),
        decreases n - i,
    {
        out.push(
            if i < m.len() {
                m[i].2
            } else {
                Scalar::zero()
            },
        );
        i += 1;
        assert(out@ =~= before + val_list(m@, n as nat).take(i as int));
    }
    assert(val_list(m@, n as nat).take(i as int) =~= val_list(m@, n as nat));
}

/// A product of powers of two is one.
pub proof fn lemma_pow2_product(a: nat, b: nat)
    requires
        is_pow2(a),
        is_pow2(b),
    ensures
        is_pow2(a * b),
        is_pow2(2 * a),
        a >= 1,
{
    vstd::arithmetic::power2::lemma_pow2_adds(log2_up(a), log2_up(b));
    vstd::arithmetic::power2::lemma_pow2_unfold(log2_up(a) + 1);
    lemma_log2_of_pow2(log2_up(a) + log2_up(b));
    lemma_log2_of_pow2(log2_up(a) + 1);
    vstd::arithmetic::power2::lemma_pow2_pos(log2_up(a));
}

impl R1CSInstance {
    /// Commits to the matrices.
    pub fn commit(&self, gens: &R1CSCommitmentGens) -> (r: (R1CSCommitment, R1CSDecommitment))
        requires
            committable(self@, *gens),
        ensures
            (r.0@, r.1@) == encoded_instance(self@, *gens),
    {
        let ghost i = self@;
        let num_cons = self.get_num_cons();
        let num_vars = self.get_num_vars();
        proof {
            lemma_pow2_product(i.num_instances, i.num_cons);
            lemma_pow2_product(i.num_vars, i.num_vars);
            lemma_pow2_product(mem_cells(i), mem_cells(i));
            assert(i.a.len() * i.num_cons <= i.num_instances * i.num_cons) by (nonlinear_arith)
                requires
                    i.a.len() <= i.num_instances,
            ;
        }
        let height = self.get_num_instances() * num_cons;
        let cells = if height > num_vars { height } else { num_vars };
        let a = stack(self.left(), num_cons, num_vars);
        let b = stack(self.right(), num_cons, num_vars);
        let c = stack(self.products(), num_cons, num_vars);
        let most = if a.len() >= b.len() && a.len() >= c.len() {
            a.len()
        } else if b.len() >= c.len() {
            b.len()
        } else {
            c.len()
        };
        proof {
            lemma_next_pow2(most as nat);
            lemma_next_pow2(15 * ops_len(i));
        }
        let n = next_power_of_two(most);
        let mut rows: Vec<usize> = Vec::new();
        push_rows(&mut rows, &a, n);
        push_rows(&mut rows, &b, n);
        push_rows(&mut rows, &c, n);
        let mut cols: Vec<usize> = Vec::new();
        push_cols(&mut cols, &a, n);
        push_cols(&mut cols, &b, n);
        push_cols(&mut cols, &c, n);
        let mut val: Vec<Scalar> = Vec::new();
        push_vals(&mut val, &a, n);
        push_vals(&mut val, &b, n);
        push_vals(&mut val, &c, n);
        assert(rows@ =~= row_ops(i));
        assert(cols@ =~= col_ops(i));
        assert(val@ =~= op_values(i));
        let row = AddrTimestamps::new(cells, rows);
        let col = AddrTimestamps::new(cells, cols);
        let mut ops: Vec<Scalar> = Vec::new();
        push_numbers(&mut ops, &row.ops_addr);
        push_numbers(&mut ops, &row.read_ts);
        push_numbers(&mut ops, &col.ops_addr);
        push_numbers(&mut ops, &col.read_ts);
        append_all(&mut ops, &val);
        assert(ops@ =~= as_scalars(as_nats(row_ops(i))) + as_scalars(read_stamps(row_ops(i)))
            + as_scalars(as_nats(col_ops(i))) + as_scalars(read_stamps(col_ops(i))) + op_values(i));
        assert(ops@.len() == 15 * n);
        let comb_ops = DensePolynomial::new(pad(ops));
        let mut mem: Vec<Scalar> = Vec::new();
        push_numbers(&mut mem, &row.audit_ts);
        push_numbers(&mut mem, &col.audit_ts);
        assert(mem@ =~= comb_mem_values(i));
        let comb_mem = DensePolynomial::new(mem);
        let comm_comb_ops = comb_ops.commit(&gens.gens_ops);
        let comm_comb_mem = comb_mem.commit(&gens.gens_mem);
        assert(row@ =~= stamped(row_ops(i), mem_cells(i)));
        assert(col@ =~= stamped(col_ops(i), mem_cells(i)));
        (
            R1CSCommitment {
                num_cons,
                num_vars,
                batch_size: 3,
                num_ops: n,
                num_mem_cells: cells,
                comm_comb_ops,
                comm_comb_mem,
            },
            R1CSDecommitment { row, col, val, comb_ops, comb_mem },
        )
    }
}

} // verus!
