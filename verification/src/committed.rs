//! Matrices of values beside the commitments to them.
use crate::commitments::Gens;
use crate::dense_mlpoly::{said_commitment, DensePolynomial, PolyCommitment, PolyCommitmentGens};
use crate::group::CompressedGroup;
use crate::math::{is_pow2, log2_up};
use crate::scalar::Scalar;
use crate::sparse_mlpoly::plain_commitment;
use crate::transcript::{history, History};
use crate::vectors::{flat, flatten, rows};
use merlin::Transcript;
use vstd::prelude::*;

verus! {

/// A matrix, the polynomial of its values row by row, and the commitment to
/// it.
pub struct Committed {
    /// The matrix.
    pub rows: Vec<Vec<Scalar>>,
    /// The polynomial.
    pub poly: DensePolynomial,
    /// The commitment.
    pub comm: PolyCommitment,
}

impl Committed {
    /// The rows of the matrix.
    pub open spec fn mat(self) -> Seq<Seq<Scalar>> {
        rows(self.rows@)
    }

    /// Polynomial and commitment are those of the matrix.
    pub open spec fn wf(self, g: Gens) -> bool {
        &&& self.poly@ == flat(self.mat())
        &&& self.comm@ == plain_commitment(flat(self.mat()), g)
    }
}

/// The matrices of a list.
pub open spec fn mats_of(l: Seq<Committed>) -> Seq<Seq<Seq<Scalar>>> {
    l.map_values(|c: Committed| c.mat())
}

/// The commitments of a list.
pub open spec fn comms_of(l: Seq<Committed>) -> Seq<Seq<CompressedGroup>> {
    l.map_values(|c: Committed| c.comm@)
}

/// Whether each of a list is in order.
pub open spec fn all_wf(l: Seq<Committed>, g: Gens) -> bool {
    forall|i: int| 0 <= i < l.len() ==> (#[trigger] l[i]).wf(g)
}

/// The commitments to matrices.
pub open spec fn mat_commitments(m: Seq<Seq<Seq<Scalar>>>, g: Gens) -> Seq<Seq<CompressedGroup>> {
    m.map_values(|x: Seq<Seq<Scalar>>| plain_commitment(flat(x), g))
}

/// Whether a matrix can be committed to.
pub open spec fn fits_gens(m: Seq<Seq<Scalar>>, gens: PolyCommitmentGens) -> bool {
    &&& flat(m).len() > 0
    &&& is_pow2(flat(m).len())
    &&& gens.fits(log2_up(flat(m).len()))
}

/// Whether each matrix of a list can be committed to.
pub open spec fn all_fit_gens(m: Seq<Seq<Seq<Scalar>>>, gens: PolyCommitmentGens) -> bool {
    forall|i: int| 0 <= i < m.len() ==> fits_gens(#[trigger] m[i], gens)
}

/// The history after the commitment to a matrix.
pub open spec fn said_matrix(h: History, m: Seq<Seq<Scalar>>, g: Gens) -> History {
    said_commitment(h, "poly_commitment"@, plain_commitment(flat(m), g))
}

/// The history after the commitments to the first `k` matrices of a list.
pub open spec fn said_matrices(h: History, m: Seq<Seq<Seq<Scalar>>>, g: Gens, k: nat) -> History
    decreases k,
{
    if k == 0 {
        h
    } else {
        said_matrix(said_matrices(h, m, g, (k - 1) as nat), m[k - 1], g)
    }
}

/// The history after the commitments to the first `k` matrices of two lists,
/// in turn.
pub open spec fn said_pairs(
    h: History,
    a: Seq<Seq<Seq<Scalar>>>,
    b: Seq<Seq<Seq<Scalar>>>,
    g: Gens,
    k: nat,
) -> History
    decreases k,
{
    if k == 0 {
        h
    } else {
        said_matrix(
            said_matrix(said_pairs(h, a, b, g, (k - 1) as nat), a[k - 1], g),
            b[k - 1],
            g,
        )
    }
}

/// Commits to a matrix, and says the commitment.
pub fn commit_matrix(m: Vec<Vec<Scalar>>, gens: &PolyCommitmentGens, t: &mut Transcript) -> (r:
    Committed)
    requires
        fits_gens(rows(m@), *gens),
    ensures
        r.mat() == rows(m@),
        r.wf(gens@.0),
        history(*final(t)) == said_matrix(history(*old(t)), rows(m@), gens@.0),
{
    let poly = DensePolynomial::new(flatten(&m));
    let comm = poly.commit(gens);
    comm.append_to_transcript("poly_commitment", t);
    Committed { rows: m, poly, comm }
}

/// Commits to one matrix, and says the commitment.
pub fn commit_single(m: Vec<Vec<Scalar>>, gens: &PolyCommitmentGens, t: &mut Transcript) -> (r: Vec<
    Committed,
>)
    requires
        fits_gens(rows(m@), *gens),
    ensures
        mats_of(r@) == seq![rows(m@)],
        all_wf(r@, gens@.0),
        history(*final(t)) == said_matrix(history(*old(t)), rows(m@), gens@.0),
{
    let ghost mat = rows(m@);
    let c = commit_matrix(m, gens, t);
    let r = vec![c];
    assert(mats_of(r@) =~= seq![mat]);
    r
}

/// Commits to the matrices of a list.
pub fn commit_matrices(m: Vec<Vec<Vec<Scalar>>>, gens: &PolyCommitmentGens, t: &mut Transcript) -> (r:
    Vec<Committed>)
    requires
        all_fit_gens(crate::vectors::mats(m@), *gens),
    ensures
        mats_of(r@) == crate::vectors::mats(m@),
        all_wf(r@, gens@.0),
        history(*final(t)) == said_matrices(
            history(*old(t)),
            crate::vectors::mats(m@),
            gens@.0,
            m@.len(),
        ),
{
    let ghost all = crate::vectors::mats(m@);
    let ghost h = history(*t);
    let ghost n = m@.len();
    let mut rest = m;
    let mut r: Vec<Committed> = Vec::new();
    let mut k: usize = 0;
    let len: usize = rest.len();
    while k < len
        invariant
            k <= len,
            n == len,
            all.len() == n,
            rest@.len() == n - k,
            forall|j: int| 0 <= j < n - k ==> rows((#[trigger] rest@[j])@) == all[k + j],
            all_fit_gens(all, *gens),
            r@.len() == k,
            all_wf(r@, gens@.0),
            forall|j: int| 0 <= j < k ==> (#[trigger] r@[j]).mat() == all[j],
            history(*t) == said_matrices(h, all, gens@.0, k as nat),
        decreases len - k,
    {
        let x = rest.remove(0);
        assert(fits_gens(all[k as int], *gens));
        let c = commit_matrix(x, gens, t);
        r.push(c);
        k += 1;
    }
    assert(mats_of(r@) =~= all);
    r
}

/// Commits to the matrices of two lists, in turn.
pub fn commit_pairs(
    a: Vec<Vec<Vec<Scalar>>>,
    b: Vec<Vec<Vec<Scalar>>>,
    gens: &PolyCommitmentGens,
    t: &mut Transcript,
) -> (r: (Vec<Committed>, Vec<Committed>))
    requires
        a@.len() == b@.len(),
        all_fit_gens(crate::vectors::mats(a@), *gens),
        all_fit_gens(crate::vectors::mats(b@), *gens),
    ensures
        mats_of(r.0@) == crate::vectors::mats(a@),
        mats_of(r.1@) == crate::vectors::mats(b@),
        all_wf(r.0@, gens@.0),
        all_wf(r.1@, gens@.0),
        history(*final(t)) == said_pairs(
            history(*old(t)),
            crate::vectors::mats(a@),
            crate::vectors::mats(b@),
            gens@.0,
            a@.len(),
        ),
{
    let ghost all_a = crate::vectors::mats(a@);
    let ghost all_b = crate::vectors::mats(b@);
    let ghost h = history(*t);
    let ghost n = a@.len();
    let mut rest_a = a;
    let mut rest_b = b;
    let mut r: Vec<Committed> = Vec::new();
    let mut s: Vec<Committed> = Vec::new();
    let mut k: usize = 0;
    let len: usize = rest_a.len();
    while k < len
        invariant
            k <= len,
            n == len,
            all_a.len() == n,
            all_b.len() == n,
            rest_a@.len() == n - k,
            rest_b@.len() == n - k,
            forall|j: int| 0 <= j < n - k ==> rows((#[trigger] rest_a@[j])@) == all_a[k + j],
            forall|j: int| 0 <= j < n - k ==> rows((#[trigger] rest_b@[j])@) == all_b[k + j],
            all_fit_gens(all_a, *gens),
            all_fit_gens(all_b, *gens),
            r@.len() == k,
            s@.len() == k,
            all_wf(r@, gens@.0),
            all_wf(s@, gens@.0),
            forall|j: int| 0 <= j < k ==> (#[trigger] r@[j]).mat() == all_a[j],
            forall|j: int| 0 <= j < k ==> (#[trigger] s@[j]).mat() == all_b[j],
            history(*t) == said_pairs(h, all_a, all_b, gens@.0, k as nat),
        decreases len - k,
    {
        assert(fits_gens(all_a[k as int], *gens));
        assert(fits_gens(all_b[k as int], *gens));
        let x = rest_a.remove(0);
        let c = commit_matrix(x, gens, t);
        r.push(c);
        let y = rest_b.remove(0);
        let d = commit_matrix(y, gens, t);
        s.push(d);
        k += 1;
    }
    assert(mats_of(r@) =~= all_a);
    assert(mats_of(s@) =~= all_b);
    (r, s)
}

/// Takes the commitments of a list.
pub fn take_comms(l: Vec<Committed>) -> (r: Vec<PolyCommitment>)
    ensures
        r@.len() == l@.len(),
        forall|i: int| 0 <= i < l@.len() ==> (#[trigger] r@[i])@ == l@[i].comm@,
{
    let ghost all = l@;
    let mut rest = l;
    let mut r: Vec<PolyCommitment> = Vec::new();
    let mut k: usize = 0;
    let len: usize = rest.len();
    while k < len
        invariant
            k <= len,
            all.len() == len,
            rest@.len() == len - k,
            forall|j: int| 0 <= j < len - k ==> #[trigger] rest@[j] == all[k + j],
            r@.len() == k,
            forall|j: int| 0 <= j < k ==> (#[trigger] r@[j])@ == all[j].comm@,
        decreases len - k,
    {
        let c = rest.remove(0);
        r.push(c.comm);
        k += 1;
    }
    r
}

/// The commitments that a list holds are those to its matrices.
pub proof fn lemma_comms(l: Seq<Committed>, g: Gens)
    requires
        all_wf(l, g),
    ensures
        comms_of(l) == mat_commitments(mats_of(l), g),
{
    assert(comms_of(l) =~= mat_commitments(mats_of(l), g));
}

} // verus!
