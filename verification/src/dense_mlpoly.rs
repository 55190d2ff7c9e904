//! Multilinear polynomials given by their values on the hypercube.
use crate::commitments::{commitment, derived_gens, gens_bound, Gens, MultiCommitGens};
use crate::group::{all_valid, CompressedGroup};
use crate::math::{is_pow2, log2_up, log_2, pow_2};
use crate::random::RandomTape;
use crate::scalar::{sadd, smul, sone, ssub, szero, Scalar};
use crate::transcript::{
    append_message, append_points, challenges, history, said, said_points, History,
};
use crate::vectors::{dot, dot_of, part, repeated, zeros};
use merlin::Transcript;
use vstd::arithmetic::power2::{
    lemma_pow2_adds, lemma_pow2_pos, lemma_pow2_strictly_increases, lemma_pow2_unfold, pow2,
};
use vstd::prelude::*;
use vstd::string::StringSliceAdditionalSpecFns;

verus! {

/// The values on the hypercube of the polynomial that is one at `r` and
/// vanishes, for `r` on the hypercube, at all other vertices. The first
/// coordinate is the most significant digit of the index.
pub open spec fn eq_evals(r: Seq<Scalar>) -> Seq<Scalar>
    decreases r.len(),
{
    if r.len() == 0 {
        seq![sone()]
    } else {
        let t = eq_evals(r.drop_last());
        Seq::new(
            2 * t.len(),
            |i: int|
                if i % 2 == 1 {
                    smul(t[i / 2], r.last())
                } else {
                    ssub(t[i / 2], smul(t[i / 2], r.last()))
                },
        )
    }
}

/// The number of coordinates that pick a row.
pub open spec fn left_vars(ell: nat) -> nat {
    ell / 2
}

/// The number of coordinates that pick a column.
pub open spec fn right_vars(ell: nat) -> nat {
    (ell - ell / 2) as nat
}

/// The value at a point.
pub open spec fn evaluation(z: Seq<Scalar>, r: Seq<Scalar>) -> Scalar {
    dot(eq_evals(r), z)
}

/// The values that remain when the first coordinate is set.
pub open spec fn bound_top(z: Seq<Scalar>, r: Scalar) -> Seq<Scalar> {
    let n = (z.len() / 2) as int;
    Seq::new(n as nat, |i: int| sadd(z[i], smul(r, ssub(z[i + n], z[i]))))
}

/// The column `i` of the values, in rows of `width`.
pub open spec fn column(z: Seq<Scalar>, width: int, rows: nat, i: int) -> Seq<Scalar> {
    Seq::new(rows, |j: int| z[j * width + i])
}

/// The combination of the rows of the values by the weights `l`.
pub open spec fn combined_rows(z: Seq<Scalar>, l: Seq<Scalar>, width: nat) -> Seq<Scalar> {
    Seq::new(width, |i: int| dot(l, column(z, width as int, l.len(), i)))
}

/// The commitments to the rows of the values.
pub open spec fn row_commitments(z: Seq<Scalar>, blinds: Seq<Scalar>, gens: Gens) -> Seq<
    CompressedGroup,
> {
    let ell = log2_up(z.len());
    let width = pow2(right_vars(ell));
    Seq::new(
        pow2(left_vars(ell)),
        |i: int| commitment(z.subrange(i * width, i * width + width), blinds[i], gens),
    )
}

/// The history after a polynomial commitment.
pub open spec fn said_commitment(h: History, label: Seq<char>, c: Seq<CompressedGroup>) -> History {
    said(
        said_points(
            said(h, label, "poly_commitment_begin".spec_bytes()),
            "poly_commitment_share"@,
            c,
        ),
        label,
        "poly_commitment_end".spec_bytes(),
    )
}

/// The number of values is two to the number of coordinates.
pub proof fn lemma_eq_evals_len(r: Seq<Scalar>)
    ensures
        eq_evals(r).len() == pow2(r.len()),
    decreases r.len(),
{
    if r.len() == 0 {
        vstd::arithmetic::power2::lemma2_to64();
    } else {
        lemma_eq_evals_len(r.drop_last());
        lemma_pow2_unfold(r.len());
    }
}

/// Rows and columns make up all the values.
pub proof fn lemma_factored(ell: nat)
    ensures
        pow2(left_vars(ell)) * pow2(right_vars(ell)) == pow2(ell),
        pow2(left_vars(ell)) >= 1,
        pow2(right_vars(ell)) >= 1,
{
    lemma_pow2_adds(left_vars(ell), right_vars(ell));
    lemma_pow2_pos(left_vars(ell));
    lemma_pow2_pos(right_vars(ell));
}

/// The polynomial that is one at a point.
pub struct EqPolynomial {
    r: Vec<Scalar>,
}

impl EqPolynomial {
    /// The coordinates of the point.
    pub closed spec fn point(self) -> Seq<Scalar> {
        self.r@
    }

    /// The polynomial of a point.
    pub fn new(r: Vec<Scalar>) -> (p: EqPolynomial)
        ensures
            p.point() == r@,
    {
        EqPolynomial { r }
    }

    /// Its values on the hypercube.
    pub fn evals(&self) -> (v: Vec<Scalar>)
        requires
            pow2(self.point().len()) <= usize::MAX,
        ensures
            v@ == eq_evals(self.point()),
            v@.len() == pow2(self.point().len()),
    {
        let mut v: Vec<Scalar> = vec![Scalar::one()];
        let mut j: usize = 0;
        assert(v@ =~= seq![sone()]);
        assert(self.r@.take(0) =~= Seq::<Scalar>::empty());
        while j < self.r.len()
            invariant
                j <= self.r@.len(),
                v@ == eq_evals(self.r@.take(j as int)),
                pow2(self.r@.len()) <= usize::MAX,
            decreases self.r@.len() - j,
        {
            let mut w: Vec<Scalar> = Vec::new();
            let ghost next = eq_evals(self.r@.take(j + 1));
            proof {
                assert(self.r@.take(j + 1).drop_last() =~= self.r@.take(j as int));
                lemma_eq_evals_len(self.r@.take(j as int));
                lemma_eq_evals_len(self.r@.take(j + 1));
                if j + 1 < self.r@.len() {
                    lemma_pow2_strictly_increases(j as nat + 1, self.r@.len());
                }
            }
            let mut i: usize = 0;
            while i < v.len()
                invariant
                    i <= v@.len(),
                    j < self.r@.len(),
                    v@ == eq_evals(self.r@.take(j as int)),
                    next == eq_evals(self.r@.take(j + 1)),
                    self.r@.take(j + 1).drop_last() == self.r@.take(j as int),
                    next.len() == 2 * v@.len(),
                    w@ == next.take(2 * i),
                decreases v@.len() - i,
            {
                let hi = v[i].times(&self.r[j]);
                let lo = v[i].minus(&hi);
                w.push(lo);
                w.push(hi);
                assert((2 * i) / 2 == i && (2 * i + 1) / 2 == i);
                assert(self.r@.take(j + 1).last() == self.r@[j as int]);
                assert(next[2 * i] == lo);
                assert(next[2 * i + 1] == hi);
                i += 1;
                assert(w@ =~= next.take(2 * i));
            }
            assert(next.take(2 * i) =~= next);
            v = w;
            j += 1;
        }
        proof {
            assert(self.r@.take(j as int) =~= self.r@);
            lemma_eq_evals_len(self.r@);
        }
        v
    }
}

/// The weights of the rows and those of the columns at a point.
pub fn factored_evals(r: &Vec<Scalar>) -> (v: (Vec<Scalar>, Vec<Scalar>))
    requires
        pow2(right_vars(r@.len())) <= usize::MAX,
    ensures
        v.0@ == eq_evals(r@.take(left_vars(r@.len()) as int)),
        v.1@ == eq_evals(r@.skip(left_vars(r@.len()) as int)),
        v.0@.len() == pow2(left_vars(r@.len())),
        v.1@.len() == pow2(right_vars(r@.len())),
{
    let left = r.len() / 2;
    proof {
        if left_vars(r@.len()) < right_vars(r@.len()) {
            lemma_pow2_strictly_increases(left_vars(r@.len()), right_vars(r@.len()));
        }
        assert(r@.subrange(0, left as int) =~= r@.take(left as int));
        assert(r@.subrange(left as int, r@.len() as int) =~= r@.skip(left as int));
    }
    let l = EqPolynomial::new(part(r, 0, left)).evals();
    let right = EqPolynomial::new(part(r, left, r.len())).evals();
    (l, right)
}

/// Generators for commitments to polynomials and for proofs of their values.
pub struct DotProductProofGens {
    /// The number of generators for columns.
    pub n: usize,
    /// The generators for columns.
    pub gens_n: MultiCommitGens,
    /// The generator for a value.
    pub gens_1: MultiCommitGens,
}

impl DotProductProofGens {
    /// The generators are in order, and there is one for a value.
    pub open spec fn wf(self) -> bool {
        &&& self.gens_n.wf()
        &&& self.gens_1.wf()
        &&& self.n == self.gens_n.n
        &&& self.gens_1.n == 1
    }

    /// Derives the generators from a label: `n` for columns, the next for a
    /// value, and one more for blinds.
    pub fn new(n: usize, label: &[u8]) -> (r: DotProductProofGens)
        requires
            n < gens_bound(),
        ensures
            r.wf(),
            r.n == n,
            r.gens_n@ == (Gens {
                g: derived_gens(label@, n as nat + 1).g.take(n as int),
                h: derived_gens(label@, n as nat + 1).h,
            }),
            r.gens_1@ == (Gens {
                g: derived_gens(label@, n as nat + 1).g.skip(n as int),
                h: derived_gens(label@, n as nat + 1).h,
            }),
    {
        let (gens_n, gens_1) = MultiCommitGens::new(n + 1, label).split_at(n);
        assert(gens_n@.g.len() == n);
        assert(gens_1@.g.len() == 1);
        DotProductProofGens { n, gens_n, gens_1 }
    }
}

/// Generators for commitments to polynomials.
pub struct PolyCommitmentGens {
    /// The generators.
    pub gens: DotProductProofGens,
}

impl PolyCommitmentGens {
    /// Generators for polynomials of `num_vars` coordinates.
    pub fn new(num_vars: usize, label: &[u8]) -> (r: PolyCommitmentGens)
        requires
            pow2(right_vars(num_vars as nat)) < gens_bound(),
        ensures
            r.gens.wf(),
            r.gens.n == pow2(right_vars(num_vars as nat)),
            r.gens.gens_n@ == (Gens {
                g: derived_gens(label@, r.gens.n as nat + 1).g.take(r.gens.n as int),
                h: derived_gens(label@, r.gens.n as nat + 1).h,
            }),
            r.gens.gens_1@ == (Gens {
                g: derived_gens(label@, r.gens.n as nat + 1).g.skip(r.gens.n as int),
                h: derived_gens(label@, r.gens.n as nat + 1).h,
            }),
    {
        let right = num_vars - num_vars / 2;
        PolyCommitmentGens { gens: DotProductProofGens::new(pow_2(right), label) }
    }

    /// Whether polynomials of `ell` coordinates can be committed to.
    pub open spec fn fits(self, ell: nat) -> bool {
        &&& self.gens.wf()
        &&& pow2(right_vars(ell)) <= self.gens.n
    }
}

impl View for PolyCommitmentGens {
    type V = (Gens, Gens);

    /// The generators for columns, and the one for a value.
    open spec fn view(&self) -> (Gens, Gens) {
        (self.gens.gens_n@, self.gens.gens_1@)
    }
}

/// A commitment to a polynomial: one point for each row of its values.
pub struct PolyCommitment {
    /// The points.
    pub c: Vec<CompressedGroup>,
}

impl View for PolyCommitment {
    type V = Seq<CompressedGroup>;

    open spec fn view(&self) -> Seq<CompressedGroup> {
        self.c@
    }
}

impl PolyCommitment {
    /// Says the commitment.
    pub fn append_to_transcript(&self, label: &'static str, t: &mut Transcript)
        ensures
            history(*final(t)) == said_commitment(history(*old(t)), label@, self@),
    {
        proof {
            reveal_strlit("poly_commitment_begin");
            reveal_strlit("poly_commitment_end");
            vstd::utf8::is_ascii_chars_encode_utf8("poly_commitment_begin"@);
            vstd::utf8::is_ascii_chars_encode_utf8("poly_commitment_end"@);
        }
        append_message(t, label, "poly_commitment_begin".as_bytes());
        append_points(t, "poly_commitment_share", &self.c);
        append_message(t, label, "poly_commitment_end".as_bytes());
    }
}

/// A multilinear polynomial, by its values on the hypercube.
pub struct DensePolynomial {
    z: Vec<Scalar>,
}

impl View for DensePolynomial {
    type V = Seq<Scalar>;

    closed spec fn view(&self) -> Seq<Scalar> {
        self.z@
    }
}

impl DensePolynomial {
    /// The polynomial with the given values.
    pub fn new(z: Vec<Scalar>) -> (r: DensePolynomial)
        ensures
            r@ == z@,
    {
        DensePolynomial { z }
    }

    /// The number of coordinates.
    pub fn get_num_vars(&self) -> (r: usize)
        requires
            self@.len() > 0,
        ensures
            r == log2_up(self@.len()),
    {
        log_2(self.z.len())
    }

    /// The number of values.
    pub fn len(&self) -> (r: usize)
        ensures
            r == self@.len(),
    {
        self.z.len()
    }

    /// The values.
    pub fn values(&self) -> (r: &Vec<Scalar>)
        ensures
            r@ == self@,
    {
        &self.z
    }

    /// The value at a vertex.
    pub fn index(&self, i: usize) -> (r: Scalar)
        requires
            i < self@.len(),
        ensures
            r == self@[i as int],
    {
        self.z[i]
    }

    /// The value at a point.
    pub fn evaluate(&self, r: &Vec<Scalar>) -> (v: Scalar)
        requires
            self@.len() == pow2(r@.len()),
        ensures
            v == evaluation(self@, r@),
    {
        let n: usize = self.z.len();
        let chis = EqPolynomial::new(crate::vectors::copy_of(r)).evals();
        dot_of(&chis, &self.z)
    }

    /// Sets the first coordinate.
    pub fn bound_poly_var_top(&mut self, r: &Scalar)
        ensures
            final(self)@ == bound_top(old(self)@, *r),
    {
        let len: usize = self.z.len();
        let n: usize = len / 2;
        let mut w: Vec<Scalar> = Vec::new();
        let mut i: usize = 0;
        while i < n
            invariant
                i <= n,
                len == self.z@.len(),
                n == self.z@.len() / 2,
                w@ == bound_top(self.z@, *r).take(i as int),
            decreases n - i,
        {
            let d = self.z[i + n].minus(&self.z[i]);
            w.push(self.z[i].plus(&r.times(&d)));
            i += 1;
            assert(w@ =~= bound_top(self.z@, *r).take(i as int));
        }
        assert(bound_top(self.z@, *r).take(n as int) =~= bound_top(self.z@, *r));
        self.z = w;
    }

    /// Combines the rows of the values by weights.
    pub fn bound(&self, l: &Vec<Scalar>, width: usize) -> (r: Vec<Scalar>)
        requires
            l@.len() * width == self@.len(),
        ensures
            r@ == combined_rows(self@, l@, width as nat),
    {
        let mut r: Vec<Scalar> = Vec::new();
        let mut i: usize = 0;
        while i < width
            invariant
                i <= width,
                l@.len() * width == self@.len(),
                r@ == combined_rows(self@, l@, width as nat).take(i as int),
            decreases width - i,
        {
            let mut acc: Vec<Scalar> = Vec::new();
            let mut j: usize = 0;
            let mut at: usize = i;
            let n: usize = self.z.len();
            while j < l.len()
                invariant
                    i < width,
                    j <= l@.len(),
                    n == self.z@.len(),
                    l@.len() * width == self.z@.len(),
                    j < l@.len() ==> at == j * width + i,
                    acc@ == column(self.z@, width as int, l@.len(), i as int).take(j as int),
                decreases l@.len() - j,
            {
                assert(j * width + i < l@.len() * width && (j + 1) * width == j * width + width && (
                j + 1 < l@.len() ==> (j + 1) * width + width <= l@.len() * width))
                    by (nonlinear_arith)
                    requires
                        0 <= j < l@.len(),
                        0 <= i < width,
                ;
                acc.push(self.z[at]);
                j += 1;
                if j < l.len() {
                    at = at + width;
                }
                assert(acc@ =~= column(self.z@, width as int, l@.len(), i as int).take(j as int));
            }
            assert(acc@ =~= column(self.z@, width as int, l@.len(), i as int));
            let d = dot_of(l, &acc);
            r.push(d);
            i += 1;
            assert(r@ =~= combined_rows(self@, l@, width as nat).take(i as int));
        }
        assert(r@ =~= combined_rows(self@, l@, width as nat));
        r
    }

    /// Commits to the rows of the values, with the given blinds.
    fn commit_inner(&self, blinds: &Vec<Scalar>, gens: &MultiCommitGens) -> (r: PolyCommitment)
        requires
            gens.wf(),
            self@.len() > 0,
            is_pow2(self@.len()),
            pow2(right_vars(log2_up(self@.len()))) <= gens.n,
            blinds@.len() == pow2(left_vars(log2_up(self@.len()))),
        ensures
            r@ == row_commitments(self@, blinds@, gens@),
            all_valid(r@),
    {
        let ghost ell = log2_up(self@.len());
        let vars = self.get_num_vars();
        let width = pow_2(vars - vars / 2);
        proof {
            lemma_factored(ell);
        }
        let mut c: Vec<CompressedGroup> = Vec::new();
        let mut i: usize = 0;
        let mut at: usize = 0;
        let n: usize = self.z.len();
        while i < blinds.len()
            invariant
                i <= blinds@.len(),
                n == self.z@.len(),
                gens.wf(),
                width <= gens.n,
                ell == log2_up(self@.len()),
                width == pow2(right_vars(ell)),
                blinds@.len() == pow2(left_vars(ell)),
                blinds@.len() * width == self.z@.len(),
                at == i * width,
                c@ == row_commitments(self@, blinds@, gens@).take(i as int),
                all_valid(c@),
            decreases blinds@.len() - i,
        {
            assert((i + 1) * width == i * width + width && (i + 1) * width <= blinds@.len() * width)
                by (nonlinear_arith)
                requires
                    0 <= i < blinds@.len(),
                    0 <= width,
            ;
            let row = part(&self.z, at, at + width);
            c.push(gens.commit(&row, &blinds[i]));
            i += 1;
            at = at + width;
            assert(c@ =~= row_commitments(self@, blinds@, gens@).take(i as int));
        }
        assert(c@ =~= row_commitments(self@, blinds@, gens@));
        PolyCommitment { c }
    }

    /// Commits without blinds.
    pub fn commit(&self, gens: &PolyCommitmentGens) -> (r: PolyCommitment)
        requires
            self@.len() > 0,
            is_pow2(self@.len()),
            gens.fits(log2_up(self@.len())),
        ensures
            r@ == row_commitments(
                self@,
                repeated(szero(), pow2(left_vars(log2_up(self@.len())))),
                gens.gens.gens_n@,
            ),
            all_valid(r@),
    {
        let vars = self.get_num_vars();
        proof {
            lemma_left_size(log2_up(self@.len()));
        }
        let blinds = zeros(pow_2(vars / 2));
        self.commit_inner(&blinds, &gens.gens.gens_n)
    }

    /// Commits under blinds from a tape, and gives them back.
    pub fn commit_blinded(&self, gens: &PolyCommitmentGens, tape: &mut RandomTape) -> (r: (
        PolyCommitment,
        Vec<Scalar>,
    ))
        requires
            self@.len() > 0,
            is_pow2(self@.len()),
            gens.fits(log2_up(self@.len())),
        ensures
            (r.1@, final(tape)@) == challenges(
                old(tape)@,
                "poly_blinds"@,
                pow2(left_vars(log2_up(self@.len()))),
            ),
            r.1@.len() == pow2(left_vars(log2_up(self@.len()))),
            r.0@ == row_commitments(self@, r.1@, gens.gens.gens_n@),
            all_valid(r.0@),
    {
        let vars = self.get_num_vars();
        proof {
            lemma_left_size(log2_up(self@.len()));
        }
        let blinds = tape.random_vector("poly_blinds", pow_2(vars / 2));
        let c = self.commit_inner(&blinds, &gens.gens.gens_n);
        (c, blinds)
    }
}

/// There are no more rows than columns.
pub proof fn lemma_left_size(ell: nat)
    ensures
        pow2(left_vars(ell)) <= pow2(right_vars(ell)),
{
    if left_vars(ell) < right_vars(ell) {
        lemma_pow2_strictly_increases(left_vars(ell), right_vars(ell));
    }
}

} // verus!
