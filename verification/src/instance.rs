//! Instances, assignments and public parameters.
use crate::commitments::{derived_gens, gens_bound, Gens};
use crate::dense_mlpoly::right_vars;
use crate::errors::R1CSError;
use crate::group::shake256_output;
use crate::math::{is_pow2, lemma_next_pow2, log2_up, next_pow2, next_power_of_two};
use crate::r1csgens::R1CSGens;
use crate::r1csinstance::{instance_bytes, R1CSInstance, R1CS};
use crate::scalar::{lemma_encoding_of, le_value, order, szero, Scalar};
use crate::sparse::{fits_in, matrices, Entry};
use crate::sparse_mlpoly::{
    deref_vars, derived_poly_gens, gens_derivable, mem_vars, ops_vars, InstanceCommitment,
    R1CSCommitment, R1CSCommitmentGens, R1CSDecommitment,
};
use crate::vectors::{copy_of, repeated};
use vstd::arithmetic::power2::pow2;
use vstd::prelude::*;
use vstd::string::StringSliceAdditionalSpecFns;

verus! {

/// A commitment to a public statement.
pub struct ComputationCommitment {
    comm: R1CSCommitment,
}

impl View for ComputationCommitment {
    type V = InstanceCommitment;

    closed spec fn view(&self) -> InstanceCommitment {
        self.comm@
    }
}

impl ComputationCommitment {
    /// Keeps a commitment.
    pub(crate) fn new(comm: R1CSCommitment) -> (r: ComputationCommitment)
        ensures
            r@ == comm@,
            r.kept() == comm,
    {
        ComputationCommitment { comm }
    }

    /// The commitment that is kept.
    pub closed spec fn kept(self) -> R1CSCommitment {
        self.comm
    }

    /// The commitment that is kept.
    pub fn get(&self) -> (r: &R1CSCommitment)
        ensures
            r@ == self@,
            *r == self.kept(),
    {
        &self.comm
    }
}

/// What a commitment holds is what the one that it keeps holds.
pub proof fn lemma_kept_commitment(c: ComputationCommitment)
    ensures
        c.kept()@ == c@,
{
}

/// What opens a `ComputationCommitment`.
pub struct ComputationDecommitment {
    decomm: R1CSDecommitment,
}

impl ComputationDecommitment {
    /// Keeps what opens a commitment.
    pub(crate) fn new(decomm: R1CSDecommitment) -> (r: ComputationDecommitment)
        ensures
            r.kept() == decomm,
    {
        ComputationDecommitment { decomm }
    }

    /// What is kept.
    pub closed spec fn kept(self) -> R1CSDecommitment {
        self.decomm
    }

    /// What is kept.
    pub(crate) fn get(&self) -> (r: &R1CSDecommitment)
        ensures
            *r == self.kept(),
    {
        &self.decomm
    }
}

/// Values for the inputs or for the variables of an instance.
#[derive(Clone)]
pub struct Assignment {
    assignment: Vec<Scalar>,
}

impl View for Assignment {
    type V = Seq<Scalar>;

    closed spec fn view(&self) -> Seq<Scalar> {
        self.assignment@
    }
}

/// Whether bytes are the canonical encoding of a scalar.
pub open spec fn is_canonical(bytes: [u8; 32]) -> bool {
    le_value(bytes@) < order()
}

/// The scalar that bytes encode.
pub open spec fn decoded(bytes: [u8; 32]) -> Scalar {
    Scalar::of(le_value(bytes@))
}

/// The scalars that a list of bytes encodes.
pub open spec fn decoded_list(v: Seq<[u8; 32]>) -> Seq<Scalar> {
    v.map_values(|b: [u8; 32]| decoded(b))
}

/// Whether every entry of a list is the canonical encoding of a scalar.
pub open spec fn all_canonical(v: Seq<[u8; 32]>) -> bool {
    forall|i: int| 0 <= i < v.len() ==> is_canonical(#[trigger] v[i])
}

/// The scalars that are read from canonical encodings have these encodings.
pub proof fn law_decoded_bytes(v: Seq<[u8; 32]>)
    requires
        all_canonical(v),
    ensures
        decoded_list(v).len() == v.len(),
        forall|i: int|
            0 <= i < v.len() ==> (#[trigger] decoded_list(v)[i]).encoding() == v[i]@
                && decoded_list(v)[i]@ == le_value(v[i]@),
{
    assert forall|i: int| 0 <= i < v.len() implies (#[trigger] decoded_list(v)[i]).encoding()
        == v[i]@ && decoded_list(v)[i]@ == le_value(v[i]@) by {
        assert(is_canonical(v[i]));
        lemma_encoding_of(v[i]@);
    }
}

/// Reads a list of scalars.
pub(crate) fn read_scalars(v: &[[u8; 32]]) -> (r: Result<Vec<Scalar>, R1CSError>)
    ensures
        match r {
            Ok(s) => all_canonical(v@) && s@ == decoded_list(v@),
            Err(e) => !all_canonical(v@) && e == R1CSError::InvalidScalar,
        },
{
    let mut out: Vec<Scalar> = Vec::new();
    let mut i: usize = 0;
    while i < v.len()
        invariant
            i <= v@.len(),
            forall|j: int| 0 <= j < i ==> is_canonical(#[trigger] v@[j]),
            out@ == decoded_list(v@).take(i as int),
        decreases v@.len() - i,
    {
        match Scalar::from_bytes(&v[i]) {
            Some(s) => {
                out.push(s);
            },
            None => {
                assert(!is_canonical(v@[i as int]));
                return Err(R1CSError::InvalidScalar);
            },
        }
        i += 1;
        assert(out@ =~= decoded_list(v@).take(i as int));
    }
    assert(out@ =~= decoded_list(v@));
    Ok(out)
}

impl Assignment {
    /// Reads an assignment: every value must be the canonical encoding of a
    /// scalar.
    pub fn new(assignment: &[[u8; 32]]) -> (r: Result<Assignment, R1CSError>)
        ensures
            match r {
                Ok(a) => {
                    &&& all_canonical(assignment@)
                    &&& a@ == decoded_list(assignment@)
                    &&& a@.len() == assignment@.len()
                    &&& forall|i: int|
                        0 <= i < a@.len() ==> (#[trigger] a@[i]).encoding() == assignment@[i]@
                },
                Err(e) => !all_canonical(assignment@) && e == R1CSError::InvalidScalar,
            },
    {
        match read_scalars(assignment) {
            Ok(values) => {
                let r = Assignment { assignment: values };
                proof {
                    law_decoded_bytes(assignment@);
                }
                Ok(r)
            },
            Err(e) => Err(e),
        }
    }

    /// The assignment with zeros up to a length beyond its own.
    pub fn pad(&self, len: usize) -> (r: VarsAssignment)
        requires
            len > self@.len(),
        ensures
            r@ == self@ + repeated(szero(), (len - self@.len()) as nat),
            r@.len() == len,
            r@.take(self@.len() as int) == self@,
            forall|i: int| self@.len() <= i < len ==> (#[trigger] r@[i])@ == 0,
    {
        let mut assignment = copy_of(&self.assignment);
        let fill = crate::vectors::zeros(len - assignment.len());
        crate::vectors::append_all(&mut assignment, &fill);
        proof {
            crate::scalar::lemma_constants();
            assert(assignment@.take(self@.len() as int) =~= self@);
        }
        Assignment { assignment }
    }

    /// The values.
    pub fn values(&self) -> (r: &Vec<Scalar>)
        ensures
            r@ == self@,
    {
        &self.assignment
    }
}

/// Values for the variables of an instance.
pub type VarsAssignment = Assignment;

/// Values for the inputs of an instance.
pub type InputsAssignment = Assignment;

/// Values for the pairs of address and value of an instance.
pub type MemsAssignment = Assignment;

/// An entry of a matrix as it is read: its row, its column and the bytes of
/// its value.
pub type RawEntry = (usize, usize, [u8; 32]);

/// The number of constraints that `n` constraints are rounded up to: the next
/// power of two, and at least two.
pub open spec fn cons_padded(n: nat) -> nat {
    if n <= 1 {
        2
    } else {
        next_pow2(n)
    }
}

/// Why an entry is refused: its row or its column lies outside of the matrix,
/// or its bytes encode no scalar.
pub open spec fn entry_error(e: RawEntry, num_cons: nat, num_vars: nat) -> Option<R1CSError> {
    if e.0 >= num_cons || e.1 >= num_vars {
        Some(R1CSError::InvalidIndex)
    } else if !is_canonical(e.2) {
        Some(R1CSError::InvalidScalar)
    } else {
        None
    }
}

/// The first refusal in a matrix.
pub open spec fn matrix_error(m: Seq<RawEntry>, num_cons: nat, num_vars: nat) -> Option<R1CSError>
    decreases m.len(),
{
    if m.len() == 0 {
        None
    } else {
        match matrix_error(m.drop_last(), num_cons, num_vars) {
            Some(e) => Some(e),
            None => entry_error(m.last(), num_cons, num_vars),
        }
    }
}

/// The first refusal in the first `k` instances: in each instance the left
/// factors come first, then the right ones, then the products.
pub open spec fn first_error(
    a: Seq<Vec<RawEntry>>,
    b: Seq<Vec<RawEntry>>,
    c: Seq<Vec<RawEntry>>,
    num_cons: nat,
    num_vars: nat,
    k: nat,
) -> Option<R1CSError>
    decreases k,
{
    if k == 0 {
        None
    } else {
        match first_error(a, b, c, num_cons, num_vars, (k - 1) as nat) {
            Some(e) => Some(e),
            None => match matrix_error(a[k - 1]@, num_cons, num_vars) {
                Some(e) => Some(e),
                None => match matrix_error(b[k - 1]@, num_cons, num_vars) {
                    Some(e) => Some(e),
                    None => matrix_error(c[k - 1]@, num_cons, num_vars),
                },
            },
        }
    }
}

/// Whether the matrices of instance `p` are there, as far as they are read: a
/// refusal before them ends the reading.
pub open spec fn readable_at(
    a: Seq<Vec<RawEntry>>,
    b: Seq<Vec<RawEntry>>,
    c: Seq<Vec<RawEntry>>,
    num_cons: nat,
    num_vars: nat,
    p: int,
) -> bool {
    ||| first_error(a, b, c, num_cons, num_vars, p as nat) is Some
    ||| {
        &&& p < a.len()
        &&& {
            ||| matrix_error(a[p]@, num_cons, num_vars) is Some
            ||| {
                &&& p < b.len()
                &&& matrix_error(b[p]@, num_cons, num_vars) is Some || p < c.len()
            }
        }
    }
}

/// Whether the matrices of the first `n` instances are there, as far as they
/// are read.
pub open spec fn readable(
    a: Seq<Vec<RawEntry>>,
    b: Seq<Vec<RawEntry>>,
    c: Seq<Vec<RawEntry>>,
    num_cons: nat,
    num_vars: nat,
    n: nat,
) -> bool {
    forall|p: int| 0 <= p < n ==> #[trigger] readable_at(a, b, c, num_cons, num_vars, p)
}

/// The entry that a raw entry stands for.
pub open spec fn read_entry(e: RawEntry) -> Entry {
    (e.0, e.1, decoded(e.2))
}

/// Whether the entries of a matrix are those that were read, in their order:
/// each has the row, the column and, as its encoding, the bytes of the one that
/// was read, and any entries behind them are zero.
pub open spec fn keeps(m: Seq<Entry>, raw: Seq<RawEntry>) -> bool {
    &&& m.len() >= raw.len()
    &&& forall|k: int|
        0 <= k < raw.len() ==> (#[trigger] m[k]).0 == raw[k].0 && m[k].1 == raw[k].1
            && m[k].2.encoding() == raw[k].2@
    &&& forall|k: int| raw.len() <= k < m.len() ==> (#[trigger] m[k]).2 == szero()
}

/// A matrix as it is kept: its entries, and, for an instance of at most one
/// constraint, a zero in each of the rows beyond their number.
pub open spec fn read_matrix(m: Seq<RawEntry>, num_cons: nat, num_vars: nat) -> Seq<Entry> {
    let entries = m.map_values(|e: RawEntry| read_entry(e));
    if num_cons <= 1 && m.len() < cons_padded(num_cons) {
        entries + Seq::new(
            (cons_padded(num_cons) - m.len()) as nat,
            |i: int| ((m.len() + i) as usize, num_vars as usize, szero()),
        )
    } else {
        entries
    }
}

/// The first `k` matrices as they are kept.
pub open spec fn read_matrices(m: Seq<Vec<RawEntry>>, num_cons: nat, num_vars: nat, k: nat) -> Seq<
    Seq<Entry>,
> {
    Seq::new(k, |p: int| read_matrix(m[p]@, num_cons, num_vars))
}

/// A matrix without a refusal lies, as it is kept, in the padded matrix.
proof fn lemma_read_fits(m: Seq<RawEntry>, num_cons: nat, num_vars: nat)
    requires
        matrix_error(m, num_cons, num_vars) is None,
        num_cons <= usize::MAX,
        num_vars <= usize::MAX,
        cons_padded(num_cons) <= usize::MAX,
        num_cons >= 2 || num_vars < next_pow2(num_vars),
    ensures
        fits_in(read_matrix(m, num_cons, num_vars), cons_padded(num_cons), next_pow2(num_vars)),
{
    lemma_cons_padded(num_cons);
    lemma_next_pow2(num_vars);
    let r = read_matrix(m, num_cons, num_vars);
    assert forall|i: int| 0 <= i < r.len() implies (#[trigger] r[i]).0 < cons_padded(num_cons)
        && r[i].1 < next_pow2(num_vars) by {
        if i < m.len() {
            lemma_no_error(m, num_cons, num_vars, i);
        }
    }
}

/// Where a matrix is not refused, none of its entries is.
pub proof fn lemma_no_error(m: Seq<RawEntry>, num_cons: nat, num_vars: nat, i: int)
    requires
        matrix_error(m, num_cons, num_vars) is None,
        0 <= i < m.len(),
    ensures
        entry_error(m[i], num_cons, num_vars) is None,
    decreases m.len(),
{
    if i < m.len() - 1 {
        lemma_no_error(m.drop_last(), num_cons, num_vars, i);
    }
}

/// What was read without a refusal is kept.
pub proof fn law_matrix_kept(m: Seq<RawEntry>, num_cons: nat, num_vars: nat)
    requires
        matrix_error(m, num_cons, num_vars) is None,
    ensures
        keeps(read_matrix(m, num_cons, num_vars), m),
{
    let r = read_matrix(m, num_cons, num_vars);
    assert forall|k: int| 0 <= k < m.len() implies (#[trigger] r[k]).0 == m[k].0 && r[k].1
        == m[k].1 && r[k].2.encoding() == m[k].2@ by {
        lemma_no_error(m, num_cons, num_vars, k);
        lemma_encoding_of(m[k].2@);
    }
}

/// Where instances are not refused, none of their matrices is.
pub proof fn lemma_no_error_at(
    a: Seq<Vec<RawEntry>>,
    b: Seq<Vec<RawEntry>>,
    c: Seq<Vec<RawEntry>>,
    num_cons: nat,
    num_vars: nat,
    k: nat,
    p: int,
)
    requires
        first_error(a, b, c, num_cons, num_vars, k) is None,
        0 <= p < k,
    ensures
        matrix_error(a[p]@, num_cons, num_vars) is None,
        matrix_error(b[p]@, num_cons, num_vars) is None,
        matrix_error(c[p]@, num_cons, num_vars) is None,
    decreases k,
{
    if p < k - 1 {
        lemma_no_error_at(a, b, c, num_cons, num_vars, (k - 1) as nat, p);
    }
}

/// Instances that are not refused lie in matrices of the padded sizes, unless
/// they have at most one constraint and a number of variables that is a power
/// of two: then the rows that are filled up name a column behind the last one.
pub proof fn law_instance_in_range(
    a: Seq<Vec<RawEntry>>,
    b: Seq<Vec<RawEntry>>,
    c: Seq<Vec<RawEntry>>,
    num_cons: nat,
    num_vars: nat,
    n: nat,
)
    requires
        first_error(a, b, c, num_cons, num_vars, n) is None,
        num_cons <= usize::MAX,
        num_vars <= usize::MAX,
        cons_padded(num_cons) <= usize::MAX,
        num_cons >= 2 || num_vars < next_pow2(num_vars),
    ensures
        (R1CS {
            num_instances: next_pow2(n),
            num_cons: cons_padded(num_cons),
            num_vars: next_pow2(num_vars),
            a: read_matrices(a, num_cons, num_vars, n),
            b: read_matrices(b, num_cons, num_vars, n),
            c: read_matrices(c, num_cons, num_vars, n),
        }).in_range(),
{
    lemma_next_pow2(n);
    assert forall|p: int| 0 <= p < n implies fits_in(
        #[trigger] read_matrices(a, num_cons, num_vars, n)[p],
        cons_padded(num_cons),
        next_pow2(num_vars),
    ) by {
        lemma_no_error_at(a, b, c, num_cons, num_vars, n, p);
        lemma_read_fits(a[p]@, num_cons, num_vars);
    }
    assert forall|p: int| 0 <= p < n implies fits_in(
        #[trigger] read_matrices(b, num_cons, num_vars, n)[p],
        cons_padded(num_cons),
        next_pow2(num_vars),
    ) by {
        lemma_no_error_at(a, b, c, num_cons, num_vars, n, p);
        lemma_read_fits(b[p]@, num_cons, num_vars);
    }
    assert forall|p: int| 0 <= p < n implies fits_in(
        #[trigger] read_matrices(c, num_cons, num_vars, n)[p],
        cons_padded(num_cons),
        next_pow2(num_vars),
    ) by {
        lemma_no_error_at(a, b, c, num_cons, num_vars, n, p);
        lemma_read_fits(c[p]@, num_cons, num_vars);
    }
}

/// The matrices of an instance, and a hash of them.
pub struct Instance {
    inst: R1CSInstance,
    digest: Vec<u8>,
}

impl View for Instance {
    type V = R1CS;

    closed spec fn view(&self) -> R1CS {
        self.inst@
    }
}

fn bytes_to_scalar(
    tups: &Vec<RawEntry>,
    num_cons: usize,
    num_vars: usize,
    num_cons_padded: usize,
) -> (r: Result<Vec<Entry>, R1CSError>)
    requires
        num_cons_padded == cons_padded(num_cons as nat),
    ensures
        match r {
            Ok(m) => matrix_error(tups@, num_cons as nat, num_vars as nat) is None && m@
                == read_matrix(tups@, num_cons as nat, num_vars as nat),
            Err(e) => matrix_error(tups@, num_cons as nat, num_vars as nat) == Some(e),
        },
{
    let ghost all = tups@.map_values(|e: RawEntry| read_entry(e));
    let mut mat: Vec<Entry> = Vec::new();
    let mut i: usize = 0;
    while i < tups.len()
        invariant
            i <= tups@.len(),
            all == tups@.map_values(|e: RawEntry| read_entry(e)),
            matrix_error(tups@.take(i as int), num_cons as nat, num_vars as nat) is None,
            mat@ == all.take(i as int),
        decreases tups@.len() - i,
    {
        let (row, col, val_bytes) = tups[i];
        let ghost next = tups@.take(i + 1);
        proof {
            assert(next.drop_last() =~= tups@.take(i as int));
            assert(next.last() == tups@[i as int]);
            lemma_first_stays(tups@, num_cons as nat, num_vars as nat, i + 1);
        }
        if row >= num_cons {
            return Err(R1CSError::InvalidIndex);
        }
        if col >= num_vars {
            return Err(R1CSError::InvalidIndex);
        }
        match Scalar::from_bytes(&val_bytes) {
            Some(val) => {
                mat.push((row, col, val));
            },
            None => {
                return Err(R1CSError::InvalidScalar);
            },
        }
        i += 1;
        assert(mat@ =~= all.take(i as int));
    }
    assert(tups@.take(i as int) =~= tups@);
    assert(all.take(i as int) =~= all);
    if num_cons == 0 || num_cons == 1 {
        let mut x: usize = tups.len();
        while x < num_cons_padded
            invariant
                num_cons <= 1,
                num_cons_padded == cons_padded(num_cons as nat),
                tups@.len() <= x,
                x <= num_cons_padded || x == tups@.len(),
                mat@ == all + Seq::new(
                    (x - tups@.len()) as nat,
                    |j: int| ((tups@.len() + j) as usize, num_vars, szero()),
                ),
            decreases num_cons_padded - x,
        {
            mat.push((x, num_vars, Scalar::zero()));
            x += 1;
            assert(mat@ =~= all + Seq::new(
                (x - tups@.len()) as nat,
                |j: int| ((tups@.len() + j) as usize, num_vars, szero()),
            ));
        }
    }
    assert(mat@ =~= read_matrix(tups@, num_cons as nat, num_vars as nat));
    Ok(mat)
}

/// A refusal in the front of a matrix is the first in all of it.
proof fn lemma_first_stays(m: Seq<RawEntry>, num_cons: nat, num_vars: nat, k: int)
    requires
        0 <= k <= m.len(),
    ensures
        matrix_error(m.take(k), num_cons, num_vars) is Some ==> matrix_error(m, num_cons, num_vars)
            == matrix_error(m.take(k), num_cons, num_vars),
    decreases m.len(),
{
    if k == m.len() {
        assert(m.take(k) =~= m);
    } else {
        assert(m.drop_last().take(k) =~= m.take(k));
        lemma_first_stays(m.drop_last(), num_cons, num_vars, k);
    }
}

/// A refusal in the first instances is the first in all of them.
proof fn lemma_error_stays(
    a: Seq<Vec<RawEntry>>,
    b: Seq<Vec<RawEntry>>,
    c: Seq<Vec<RawEntry>>,
    num_cons: nat,
    num_vars: nat,
    j: nat,
    k: nat,
)
    requires
        j <= k,
        first_error(a, b, c, num_cons, num_vars, j) is Some,
    ensures
        first_error(a, b, c, num_cons, num_vars, k) == first_error(a, b, c, num_cons, num_vars, j),
    decreases k,
{
    if j < k {
        lemma_error_stays(a, b, c, num_cons, num_vars, j, (k - 1) as nat);
    }
}

/// The number of constraints that instances are padded to is a power of two.
pub proof fn lemma_cons_padded(n: nat)
    ensures
        is_pow2(cons_padded(n)),
        n <= cons_padded(n),
        cons_padded(n) >= 2,
{
    lemma_next_pow2(n);
    crate::math::lemma_log2_of_pow2(1);
    vstd::arithmetic::power2::lemma2_to64();
}

impl Instance {
    /// The matrices.
    pub fn get(&self) -> (r: &R1CSInstance)
        ensures
            r@ == self@,
    {
        &self.inst
    }

    /// The hash of the matrices.
    pub closed spec fn hash(self) -> Seq<u8> {
        self.digest@
    }

    /// Reads the matrices of `num_instances` instances. Sizes are rounded up
    /// to powers of two. Lists may end early behind an entry that is refused.
    pub fn new(
        num_instances: usize,
        num_cons: usize,
        num_vars: usize,
        a: &Vec<Vec<RawEntry>>,
        b: &Vec<Vec<RawEntry>>,
        c: &Vec<Vec<RawEntry>>,
    ) -> (r: Result<Instance, R1CSError>)
        requires
            readable(a@, b@, c@, num_cons as nat, num_vars as nat, num_instances as nat),
            next_pow2(num_instances as nat) <= usize::MAX,
            next_pow2(num_cons as nat) <= usize::MAX,
            next_pow2(num_vars as nat) <= usize::MAX,
        ensures
            ({
                let (n, nc, nv) = (num_instances as nat, num_cons as nat, num_vars as nat);
                match r {
                    Ok(i) => {
                        &&& first_error(a@, b@, c@, nc, nv, n) is None
                        &&& i@ == (R1CS {
                            num_instances: next_pow2(n),
                            num_cons: cons_padded(nc),
                            num_vars: next_pow2(nv),
                            a: read_matrices(a@, nc, nv, n),
                            b: read_matrices(b@, nc, nv, n),
                            c: read_matrices(c@, nc, nv, n),
                        })
                        &&& i.hash() == shake256_output(instance_bytes(i@), 32)
                        &&& forall|p: int|
                            0 <= p < n ==> keeps(#[trigger] i@.a[p], a@[p]@) && keeps(
                                i@.b[p],
                                b@[p]@,
                            ) && keeps(i@.c[p], c@[p]@)
                    },
                    Err(e) => first_error(a@, b@, c@, nc, nv, n) == Some(e),
                }
            }),
    {
        let num_instances_padded = next_power_of_two(num_instances);
        let num_vars_padded = next_power_of_two(num_vars);
        let num_cons_padded = if num_cons == 0 || num_cons == 1 {
            2
        } else {
            next_power_of_two(num_cons)
        };
        proof {
            lemma_cons_padded(num_cons as nat);
            lemma_next_pow2(num_vars as nat);
        }
        let ghost (n, nc, nv) = (num_instances as nat, num_cons as nat, num_vars as nat);
        let mut a_list: Vec<Vec<Entry>> = Vec::new();
        let mut b_list: Vec<Vec<Entry>> = Vec::new();
        let mut c_list: Vec<Vec<Entry>> = Vec::new();
        let mut i: usize = 0;
        while i < num_instances
            invariant
                i <= num_instances,
                n == num_instances,
                nc == num_cons,
                nv == num_vars,
                readable(a@, b@, c@, nc, nv, n),
                num_cons_padded == cons_padded(nc),
                first_error(a@, b@, c@, nc, nv, i as nat) is None,
                a_list@.len() == i,
                b_list@.len() == i,
                c_list@.len() == i,
                forall|p: int| 0 <= p < i ==> (#[trigger] a_list@[p])@ == read_matrix(a@[p]@, nc, nv),
                forall|p: int| 0 <= p < i ==> (#[trigger] b_list@[p])@ == read_matrix(b@[p]@, nc, nv),
                forall|p: int| 0 <= p < i ==> (#[trigger] c_list@[p])@ == read_matrix(c@[p]@, nc, nv),
            decreases num_instances - i,
        {
            proof {
                assert(readable_at(a@, b@, c@, nc, nv, i as int));
                if first_error(a@, b@, c@, nc, nv, i as nat + 1) is Some {
                    lemma_error_stays(a@, b@, c@, nc, nv, i as nat + 1, n);
                }
            }
            match bytes_to_scalar(&a[i], num_cons, num_vars, num_cons_padded) {
                Ok(m) => a_list.push(m),
                Err(e) => return Err(e),
            }
            match bytes_to_scalar(&b[i], num_cons, num_vars, num_cons_padded) {
                Ok(m) => b_list.push(m),
                Err(e) => return Err(e),
            }
            match bytes_to_scalar(&c[i], num_cons, num_vars, num_cons_padded) {
                Ok(m) => c_list.push(m),
                Err(e) => return Err(e),
            }
            i += 1;
        }
        assert(matrices(a_list@) =~= read_matrices(a@, nc, nv, n));
        assert(matrices(b_list@) =~= read_matrices(b@, nc, nv, n));
        assert(matrices(c_list@) =~= read_matrices(c@, nc, nv, n));
        let inst = R1CSInstance::new(
            num_instances_padded,
            num_cons_padded,
            num_vars_padded,
            &a_list,
            &b_list,
            &c_list,
        );
        let digest = inst.get_digest();
        proof {
            assert forall|p: int| 0 <= p < n implies keeps(#[trigger] inst@.a[p], a@[p]@) && keeps(
                inst@.b[p],
                b@[p]@,
            ) && keeps(inst@.c[p], c@[p]@) by {
                lemma_no_error_at(a@, b@, c@, nc, nv, n, p);
                law_matrix_kept(a@[p]@, nc, nv);
                law_matrix_kept(b@[p]@, nc, nv);
                law_matrix_kept(c@[p]@, nc, nv);
            }
        }
        Ok(Instance { inst, digest })
    }
}

/// The public parameters of proofs about instances of one size.
pub struct SNARKGens {
    /// The generators of the commitments to witnesses.
    pub gens_r1cs_sat: R1CSGens,
    /// The generators of the commitments to instances.
    pub gens_r1cs_eval: R1CSCommitmentGens,
}

/// What a `SNARKGens` holds.
#[verifier::ext_equal]
pub struct Parameters {
    /// The generator for one value in a sum-check.
    pub sat_1: Gens,
    /// The generators for three coefficients.
    pub sat_3: Gens,
    /// The generators for four coefficients.
    pub sat_4: Gens,
    /// The generators of the commitments to witnesses.
    pub sat_pc: (Gens, Gens),
    /// The generators for reads.
    pub eval_ops: (Gens, Gens),
    /// The generators for final stamps.
    pub eval_mem: (Gens, Gens),
    /// The generators for values that are read.
    pub eval_derefs: (Gens, Gens),
}

impl View for SNARKGens {
    type V = Parameters;

    open spec fn view(&self) -> Parameters {
        Parameters {
            sat_1: self.gens_r1cs_sat.gens_sc.gens_1@,
            sat_3: self.gens_r1cs_sat.gens_sc.gens_3@,
            sat_4: self.gens_r1cs_sat.gens_sc.gens_4@,
            sat_pc: self.gens_r1cs_sat.gens_pc@,
            eval_ops: self.gens_r1cs_eval.gens_ops@,
            eval_mem: self.gens_r1cs_eval.gens_mem@,
            eval_derefs: self.gens_r1cs_eval.gens_derefs@,
        }
    }
}

/// The parameters for instances of the given size, with at most
/// `num_nz_entries` entries in each of the three matrices.
pub open spec fn derived_parameters(
    num_cons: nat,
    num_vars: nat,
    num_instances: nat,
    num_nz_entries: nat,
) -> Parameters {
    let (sat, eval) = ("gens_r1cs_sat".spec_bytes(), "gens_r1cs_eval".spec_bytes());
    let vars = next_pow2(num_vars);
    let pc = derived_poly_gens(sat, log2_up(vars));
    Parameters {
        sat_1: pc.1,
        sat_3: derived_gens(sat, 3),
        sat_4: derived_gens(sat, 4),
        sat_pc: pc,
        eval_ops: derived_poly_gens(eval, ops_vars(num_nz_entries)),
        eval_mem: derived_poly_gens(eval, mem_vars(next_pow2(num_instances), num_cons, vars)),
        eval_derefs: derived_poly_gens(eval, deref_vars(num_nz_entries)),
    }
}

/// Numbers of variables and of instances matter only by the powers of two that
/// they are rounded up to.
pub proof fn law_parameters_by_padded_sizes(
    num_cons: nat,
    v1: nat,
    v2: nat,
    n1: nat,
    n2: nat,
    num_nz_entries: nat,
)
    requires
        next_pow2(v1) == next_pow2(v2),
        next_pow2(n1) == next_pow2(n2),
    ensures
        derived_parameters(num_cons, v1, n1, num_nz_entries) == derived_parameters(
            num_cons,
            v2,
            n2,
            num_nz_entries,
        ),
{
}

/// The parameters of proofs of satisfiability depend on the rounded number of
/// variables alone.
pub proof fn law_satisfiability_parameters(
    c1: nat,
    c2: nat,
    v1: nat,
    v2: nat,
    n1: nat,
    n2: nat,
    z1: nat,
    z2: nat,
)
    requires
        next_pow2(v1) == next_pow2(v2),
    ensures
        ({
            let (a, b) = (derived_parameters(c1, v1, n1, z1), derived_parameters(c2, v2, n2, z2));
            &&& a.sat_1 == b.sat_1
            &&& a.sat_3 == b.sat_3
            &&& a.sat_4 == b.sat_4
            &&& a.sat_pc == b.sat_pc
        }),
{
}

impl SNARKGens {
    /// Derives the parameters for instances of the given size, with at most
    /// `num_nz_entries` entries in each of the three matrices.
    pub fn new(
        num_cons: usize,
        num_vars: usize,
        num_instances: usize,
        num_nz_entries: usize,
    ) -> (r: SNARKGens)
        requires
            next_pow2(num_vars as nat) <= usize::MAX,
            next_pow2(num_instances as nat) <= usize::MAX,
            pow2(right_vars(log2_up(next_pow2(num_vars as nat)))) < gens_bound(),
            gens_derivable(
                next_pow2(num_instances as nat),
                num_cons as nat,
                next_pow2(num_vars as nat),
                num_nz_entries as nat,
            ),
        ensures
            r@ == derived_parameters(
                num_cons as nat,
                num_vars as nat,
                num_instances as nat,
                num_nz_entries as nat,
            ),
            r.gens_r1cs_sat.wf(),
            r.gens_r1cs_sat.gens_pc.fits(log2_up(next_pow2(num_vars as nat))),
            r.gens_r1cs_eval.gens_ops.fits(ops_vars(num_nz_entries as nat)),
            r.gens_r1cs_eval.gens_mem.fits(
                mem_vars(
                    next_pow2(num_instances as nat),
                    num_cons as nat,
                    next_pow2(num_vars as nat),
                ),
            ),
            r.gens_r1cs_eval.gens_derefs.fits(deref_vars(num_nz_entries as nat)),
    {
        proof {
            lemma_next_pow2(num_vars as nat);
        }
        let num_vars_padded = next_power_of_two(num_vars);
        let num_instances_padded = next_power_of_two(num_instances);
        let gens_r1cs_sat = R1CSGens::new("gens_r1cs_sat".as_bytes(), num_cons, num_vars_padded);
        let gens_r1cs_eval = R1CSCommitmentGens::new(
            "gens_r1cs_eval".as_bytes(),
            num_instances_padded,
            num_cons,
            num_vars_padded,
            num_nz_entries,
        );
        SNARKGens { gens_r1cs_sat, gens_r1cs_eval }
    }
}

} // verus!
