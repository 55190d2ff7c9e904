//! Sum-checks whose messages are committed to.
use crate::commitments::{commitment, Gens, MultiCommitGens};
use crate::dense_mlpoly::{bound_top, DensePolynomial};
use crate::group::CompressedGroup;
use crate::random::RandomTape;
use crate::scalar::{sadd, smul, sone, ssub, szero, Scalar};
use crate::sigma::{linear_prove, DotLinear, DotProductProof};
use crate::transcript::{
    append_point, challenge, challenge_scalar, challenge_vector, challenges, drawn, history, said,
    History,
};
use crate::unipoly::{interpolated, uni_value, UniPoly};
use crate::vectors::{copy_of, rows};
use merlin::Transcript;
use vstd::arithmetic::power2::{lemma_pow2_unfold, pow2};
use vstd::prelude::*;

verus! {

/// How the values of several polynomials at a vertex are combined.
#[derive(Clone, Copy, PartialEq, Eq, Structural)]
pub enum Comb {
    /// The product of two.
    Quad,
    /// The product of three.
    Cubic,
    /// The product of the first with the difference of the product of the
    /// next two and the last.
    Additive,
}

impl Comb {
    /// The combination of values.
    pub open spec fn apply(self, v: Seq<Scalar>) -> Scalar {
        match self {
            Comb::Quad => smul(v[0], v[1]),
            Comb::Cubic => smul(smul(v[0], v[1]), v[2]),
            Comb::Additive => smul(v[0], ssub(smul(v[1], v[2]), v[3])),
        }
    }

    /// The number of values that are combined.
    pub open spec fn arity(self) -> nat {
        match self {
            Comb::Quad => 2,
            Comb::Cubic => 3,
            Comb::Additive => 4,
        }
    }

    /// The number of values that fix the polynomial of a round.
    pub open spec fn points(self) -> nat {
        if self == Comb::Quad {
            3
        } else {
            4
        }
    }

    fn combine(&self, v: &Vec<Scalar>) -> (r: Scalar)
        requires
            v@.len() == self.arity(),
        ensures
            r == self.apply(v@),
    {
        match self {
            Comb::Quad => v[0].times(&v[1]),
            Comb::Cubic => v[0].times(&v[1]).times(&v[2]),
            Comb::Additive => v[0].times(&v[1].times(&v[2]).minus(&v[3])),
        }
    }
}

/// The value at 0, 2 or 3 of the line with the given values at 0 and 1.
pub open spec fn on_line(lo: Scalar, hi: Scalar, at: nat) -> Scalar {
    if at == 0 {
        lo
    } else if at == 2 {
        ssub(sadd(hi, hi), lo)
    } else {
        ssub(sadd(ssub(sadd(hi, hi), lo), hi), lo)
    }
}

/// The values of all polynomials with the first coordinate at 0, 2 or 3 and
/// the others at the vertex `i`.
pub open spec fn column_at(tables: Seq<Seq<Scalar>>, i: int, at: nat) -> Seq<Scalar> {
    tables.map_values(|t: Seq<Scalar>| on_line(t[i], t[(t.len() / 2) as int + i], at))
}

/// The sum of the combinations over the first `k` vertices.
pub open spec fn table_sum(tables: Seq<Seq<Scalar>>, comb: Comb, at: nat, k: nat) -> Scalar
    decreases k,
{
    if k == 0 {
        szero()
    } else {
        sadd(
            table_sum(tables, comb, at, (k - 1) as nat),
            comb.apply(column_at(tables, k - 1, at)),
        )
    }
}

/// The values that fix the polynomial of a round: at 1 it makes up the claim.
pub open spec fn round_evals(tables: Seq<Seq<Scalar>>, comb: Comb, claim: Scalar) -> Seq<Scalar> {
    let n = tables[0].len() / 2;
    let e0 = table_sum(tables, comb, 0, n);
    let e2 = table_sum(tables, comb, 2, n);
    if comb == Comb::Quad {
        seq![e0, ssub(claim, e0), e2]
    } else {
        seq![e0, ssub(claim, e0), e2, table_sum(tables, comb, 3, n)]
    }
}

/// Where a sum-check stands.
#[verifier::ext_equal]
pub struct Rounds {
    /// What is claimed.
    pub claim: Scalar,
    /// The commitment to the claim.
    pub comm_claim: CompressedGroup,
    /// The blind of the commitment.
    pub blind: Scalar,
    /// The transcript.
    pub th: History,
    /// The tape.
    pub rh: History,
    /// The challenges.
    pub r: Seq<Scalar>,
    /// The commitments to the polynomials of the rounds.
    pub comm_polys: Seq<CompressedGroup>,
    /// The commitments to the claims of the rounds.
    pub comm_evals: Seq<CompressedGroup>,
    /// The proofs of the rounds.
    pub proofs: Seq<DotLinear>,
}

/// The powers by which coefficients enter a value.
pub open spec fn chain(r: Scalar, i: nat) -> Scalar
    decreases i,
{
    if i == 0 {
        sone()
    } else {
        smul(chain(r, (i - 1) as nat), r)
    }
}

/// The vector that takes the coefficients of the polynomial of a round to the
/// weighted sum of its sum over 0 and 1 and its value at `r`.
pub open spec fn round_weights(w: Seq<Scalar>, r: Scalar, n: nat) -> Seq<Scalar> {
    Seq::new(
        n,
        |i: int|
            sadd(
                smul(
                    w[0],
                    if i == 0 {
                        sadd(sone(), sone())
                    } else {
                        sone()
                    },
                ),
                smul(w[1], chain(r, i as nat)),
            ),
    )
}

/// One round, with the polynomial of the given values.
#[verifier::opaque]
pub open spec fn one_round(
    s: Rounds,
    evals: Seq<Scalar>,
    blind_poly: Scalar,
    blind_eval: Scalar,
    g1: Gens,
    gn: Gens,
) -> Rounds {
    let coeffs = interpolated(evals);
    let comm_poly = commitment(coeffs, blind_poly, gn);
    let h1 = said(s.th, "comm_poly"@, comm_poly.encoding());
    let r = challenge(h1, "challenge_nextround"@);
    let h2 = drawn(h1, "challenge_nextround"@);
    let eval = uni_value(coeffs, r);
    let comm_eval = commitment(seq![eval], blind_eval, g1);
    let h3 = said(
        said(h2, "comm_claim_per_round"@, s.comm_claim.encoding()),
        "comm_eval"@,
        comm_eval.encoding(),
    );
    let (w, h4) = challenges(h3, "combine_two_claims_to_one"@, 2);
    let target = sadd(smul(w[0], s.claim), smul(w[1], eval));
    let blind = sadd(smul(w[0], s.blind), smul(w[1], blind_eval));
    let (proof, h5, rh) = linear_prove(
        g1,
        gn,
        coeffs,
        blind_poly,
        round_weights(w, r, coeffs.len()),
        target,
        blind,
        h4,
        s.rh,
    );
    Rounds {
        claim: eval,
        comm_claim: comm_eval,
        blind: blind_eval,
        th: h5,
        rh,
        r: s.r.push(r),
        comm_polys: s.comm_polys.push(comm_poly),
        comm_evals: s.comm_evals.push(comm_eval),
        proofs: s.proofs.push(proof),
    }
}

/// Where a sum-check starts: at a claim under a blind.
pub open spec fn first_round(
    claim: Scalar,
    blind: Scalar,
    g1: Gens,
    th: History,
    rh: History,
) -> Rounds {
    Rounds {
        claim,
        comm_claim: commitment(seq![claim], blind, g1),
        blind,
        th,
        rh,
        r: Seq::empty(),
        comm_polys: Seq::empty(),
        comm_evals: Seq::empty(),
        proofs: Seq::empty(),
    }
}

/// `k` rounds of a sum-check over tables, and what is left of the tables.
pub open spec fn sumcheck_rounds(
    s: Rounds,
    tables: Seq<Seq<Scalar>>,
    comb: Comb,
    bp: Seq<Scalar>,
    be: Seq<Scalar>,
    g1: Gens,
    gn: Gens,
    k: nat,
) -> (Rounds, Seq<Seq<Scalar>>)
    decreases k,
{
    if k == 0 {
        (s, tables)
    } else {
        let (s1, t1) = sumcheck_rounds(s, tables, comb, bp, be, g1, gn, (k - 1) as nat);
        let s2 = one_round(s1, round_evals(t1, comb, s1.claim), bp[k - 1], be[k - 1], g1, gn);
        (s2, t1.map_values(|t: Seq<Scalar>| bound_top(t, s2.r.last())))
    }
}

/// A sum-check of `n` rounds over tables.
pub open spec fn sumcheck_prove(
    claim: Scalar,
    blind: Scalar,
    n: nat,
    tables: Seq<Seq<Scalar>>,
    comb: Comb,
    g1: Gens,
    gn: Gens,
    th: History,
    rh: History,
) -> (Rounds, Seq<Seq<Scalar>>) {
    let (bp, rh1) = challenges(rh, "blinds_poly"@, n);
    let (be, rh2) = challenges(rh1, "blinds_evals"@, n);
    sumcheck_rounds(first_round(claim, blind, g1, th, rh2), tables, comb, bp, be, g1, gn, n)
}

/// The messages of a sum-check.
pub struct ZKSumcheckInstanceProof {
    /// The commitments to the polynomials of the rounds.
    pub comm_polys: Vec<CompressedGroup>,
    /// The commitments to the claims of the rounds.
    pub comm_evals: Vec<CompressedGroup>,
    /// The proofs of the rounds.
    pub proofs: Vec<DotProductProof>,
}

/// What a `ZKSumcheckInstanceProof` holds.
#[verifier::ext_equal]
pub struct Sumcheck {
    /// The commitments to the polynomials of the rounds.
    pub comm_polys: Seq<CompressedGroup>,
    /// The commitments to the claims of the rounds.
    pub comm_evals: Seq<CompressedGroup>,
    /// The proofs of the rounds.
    pub proofs: Seq<DotLinear>,
}

impl View for ZKSumcheckInstanceProof {
    type V = Sumcheck;

    open spec fn view(&self) -> Sumcheck {
        Sumcheck {
            comm_polys: self.comm_polys@,
            comm_evals: self.comm_evals@,
            proofs: self.proofs@.map_values(|p: DotProductProof| p@),
        }
    }
}

impl Rounds {
    /// The messages of the rounds.
    pub open spec fn messages(self) -> Sumcheck {
        Sumcheck {
            comm_polys: self.comm_polys,
            comm_evals: self.comm_evals,
            proofs: self.proofs,
        }
    }
}

/// Whether tables all have one length.
pub open spec fn all_long(tables: Seq<Seq<Scalar>>, n: nat) -> bool {
    forall|m: int| 0 <= m < tables.len() ==> (#[trigger] tables[m]).len() == n
}

fn line_value(lo: &Scalar, hi: &Scalar, at: usize) -> (r: Scalar)
    requires
        at == 0 || at == 2 || at == 3,
    ensures
        r == on_line(*lo, *hi, at as nat),
{
    if at == 0 {
        *lo
    } else if at == 2 {
        hi.plus(hi).minus(lo)
    } else {
        hi.plus(hi).minus(lo).plus(hi).minus(lo)
    }
}

fn sum_tables(tables: &Vec<Vec<Scalar>>, comb: &Comb, at: usize, len: usize) -> (r: Scalar)
    requires
        at == 0 || at == 2 || at == 3,
        tables@.len() == comb.arity(),
        all_long(rows(tables@), 2 * len as nat),
    ensures
        r == table_sum(rows(tables@), *comb, at as nat, len as nat),
{
    let ghost all = rows(tables@);
    let mut r = Scalar::zero();
    let mut i: usize = 0;
    while i < len
        invariant
            at == 0 || at == 2 || at == 3,
            i <= len,
            all == rows(tables@),
            tables@.len() == comb.arity(),
            all_long(all, 2 * len as nat),
            r == table_sum(all, *comb, at as nat, i as nat),
        decreases len - i,
    {
        let mut v: Vec<Scalar> = Vec::new();
        let mut m: usize = 0;
        while m < tables.len()
            invariant
                at == 0 || at == 2 || at == 3,
                m <= tables@.len(),
                i < len,
                all == rows(tables@),
                all_long(all, 2 * len as nat),
                v@ == column_at(all, i as int, at as nat).take(m as int),
            decreases tables@.len() - m,
        {
            assert(all[m as int].len() == 2 * len);
            assert(all[m as int] == tables@[m as int]@);
            let n: usize = tables[m].len();
            v.push(line_value(&tables[m][i], &tables[m][len + i], at));
            m += 1;
            assert(v@ =~= column_at(all, i as int, at as nat).take(m as int));
        }
        assert(v@ =~= column_at(all, i as int, at as nat));
        r = r.plus(&comb.combine(&v));
        i += 1;
    }
    r
}

fn weights_for(w: &Vec<Scalar>, r: &Scalar, n: usize) -> (a: Vec<Scalar>)
    requires
        w@.len() == 2,
    ensures
        a@ == round_weights(w@, *r, n as nat),
{
    let one = Scalar::one();
    let two = one.plus(&one);
    let mut a: Vec<Scalar> = Vec::new();
    let mut p = one;
    let mut i: usize = 0;
    while i < n
        invariant
            i <= n,
            w@.len() == 2,
            one == sone(),
            two == sadd(sone(), sone()),
            p == chain(*r, i as nat),
            a@ == round_weights(w@, *r, n as nat).take(i as int),
        decreases n - i,
    {
        let s = if i == 0 { two } else { one };
        a.push(w[0].times(&s).plus(&w[1].times(&p)));
        p = p.times(r);
        i += 1;
        assert(a@ =~= round_weights(w@, *r, n as nat).take(i as int));
    }
    assert(a@ =~= round_weights(w@, *r, n as nat));
    a
}

/// The state of a prover between rounds.
struct Prover {
    claim: Scalar,
    comm_claim: CompressedGroup,
    blind: Scalar,
    r: Vec<Scalar>,
    comm_polys: Vec<CompressedGroup>,
    comm_evals: Vec<CompressedGroup>,
    proofs: Vec<DotProductProof>,
}

impl Prover {
    spec fn at(self, th: History, rh: History) -> Rounds {
        Rounds {
            claim: self.claim,
            comm_claim: self.comm_claim,
            blind: self.blind,
            th,
            rh,
            r: self.r@,
            comm_polys: self.comm_polys@,
            comm_evals: self.comm_evals@,
            proofs: self.proofs@.map_values(|p: DotProductProof| p@),
        }
    }

    fn round(
        &mut self,
        evals: &Vec<Scalar>,
        blind_poly: &Scalar,
        blind_eval: &Scalar,
        gens_1: &MultiCommitGens,
        gens_n: &MultiCommitGens,
        t: &mut Transcript,
        tape: &mut RandomTape,
    ) -> (res: Scalar)
        requires
            evals@.len() == 3 || evals@.len() == 4,
            gens_1.wf(),
            gens_n.wf(),
            gens_1.n >= 1,
            evals@.len() <= gens_n.n,
        ensures
            final(self).at(history(*final(t)), final(tape)@) == one_round(
                old(self).at(history(*old(t)), old(tape)@),
                evals@,
                *blind_poly,
                *blind_eval,
                gens_1@,
                gens_n@,
            ),
            final(self).r@ == old(self).r@.push(res),
    {
        proof {
            reveal(one_round);
        }
        let ghost before = self.at(history(*t), tape@);
        let poly = UniPoly::from_evals(evals);
        let comm_poly = poly.commit(gens_n, blind_poly);
        append_point(t, "comm_poly", &comm_poly);
        let r = challenge_scalar(t, "challenge_nextround");
        let eval = poly.evaluate(&r);
        let comm_eval = gens_1.commit_one(&eval, blind_eval);
        append_point(t, "comm_claim_per_round", &self.comm_claim);
        append_point(t, "comm_eval", &comm_eval);
        let w = challenge_vector(t, "combine_two_claims_to_one", 2);
        let target = w[0].times(&self.claim).plus(&w[1].times(&eval));
        let blind = w[0].times(&self.blind).plus(&w[1].times(blind_eval));
        let a = weights_for(&w, &r, evals.len());
        let proof = DotProductProof::prove(
            gens_1,
            gens_n,
            t,
            tape,
            poly.as_vec(),
            blind_poly,
            &a,
            &target,
            &blind,
        );
        self.claim = eval;
        self.comm_claim = comm_eval;
        self.blind = *blind_eval;
        self.r.push(r);
        self.comm_polys.push(comm_poly);
        self.comm_evals.push(comm_eval);
        let ghost was = self.proofs@;
        self.proofs.push(proof);
        proof {
            let view = |p: DotProductProof| p@;
            assert(self.proofs@.map_values(view) =~= was.map_values(view).push(proof@));
        }
        r
    }
}

/// What a sum-check over tables ends with.
struct Finished {
    proof: ZKSumcheckInstanceProof,
    r: Vec<Scalar>,
    blind: Scalar,
    tables: Vec<Vec<Scalar>>,
}

fn bind_tables(tables: &Vec<Vec<Scalar>>, r: &Scalar) -> (res: Vec<Vec<Scalar>>)
    ensures
        rows(res@) == rows(tables@).map_values(|t: Seq<Scalar>| bound_top(t, *r)),
        res@.len() == tables@.len(),
{
    let mut res: Vec<Vec<Scalar>> = Vec::new();
    let mut m: usize = 0;
    while m < tables.len()
        invariant
            m <= tables@.len(),
            res@.len() == m,
            forall|j: int| 0 <= j < m ==> (#[trigger] res@[j])@ == bound_top(tables@[j]@, *r),
        decreases tables@.len() - m,
    {
        let mut p = DensePolynomial::new(copy_of(&tables[m]));
        p.bound_poly_var_top(r);
        res.push(copy_of(p.values()));
        m += 1;
    }
    assert(rows(res@) =~= rows(tables@).map_values(|t: Seq<Scalar>| bound_top(t, *r)));
    res
}

fn prove_tables(
    claim: &Scalar,
    blind_claim: &Scalar,
    num_rounds: usize,
    tables: Vec<Vec<Scalar>>,
    comb: &Comb,
    gens_1: &MultiCommitGens,
    gens_n: &MultiCommitGens,
    t: &mut Transcript,
    tape: &mut RandomTape,
) -> (res: Finished)
    requires
        num_rounds >= 1,
        tables@.len() == comb.arity(),
        all_long(rows(tables@), pow2(num_rounds as nat)),
        gens_1.wf(),
        gens_n.wf(),
        gens_1.n >= 1,
        comb.points() <= gens_n.n,
    ensures
        ({
            let (out, ts) = sumcheck_prove(
                *claim,
                *blind_claim,
                num_rounds as nat,
                rows(tables@),
                *comb,
                gens_1@,
                gens_n@,
                history(*old(t)),
                old(tape)@,
            );
            &&& res.proof@ == out.messages()
            &&& res.r@ == out.r
            &&& res.blind == out.blind
            &&& rows(res.tables@) == ts
            &&& history(*final(t)) == out.th
            &&& final(tape)@ == out.rh
        }),
        all_long(rows(res.tables@), 1),
        res.tables@.len() == comb.arity(),
        res.r@.len() == num_rounds,
{
    let ghost start_tables = rows(tables@);
    let bp = tape.random_vector("blinds_poly", num_rounds);
    let be = tape.random_vector("blinds_evals", num_rounds);
    let ghost start = first_round(*claim, *blind_claim, gens_1@, history(*t), tape@);
    let mut s = Prover {
        claim: *claim,
        comm_claim: gens_1.commit_one(claim, blind_claim),
        blind: *blind_claim,
        r: Vec::new(),
        comm_polys: Vec::new(),
        comm_evals: Vec::new(),
        proofs: Vec::new(),
    };
    let mut tables = tables;
    let mut j: usize = 0;
    assert(s.at(history(*t), tape@) =~= start);
    while j < num_rounds
        invariant
            j <= num_rounds,
            bp@.len() == num_rounds,
            be@.len() == num_rounds,
            tables@.len() == comb.arity(),
            all_long(rows(tables@), pow2((num_rounds - j) as nat)),
            gens_1.wf(),
            gens_n.wf(),
            gens_1.n >= 1,
            comb.points() <= gens_n.n,
            s.r@.len() == j,
            sumcheck_rounds(start, start_tables, *comb, bp@, be@, gens_1@, gens_n@, j as nat) == (
                s.at(history(*t), tape@),
                rows(tables@),
            ),
        decreases num_rounds - j,
    {
        let ghost was = rows(tables@);
        proof {
            lemma_pow2_unfold((num_rounds - j) as nat);
            assert(was[0].len() == pow2((num_rounds - j) as nat));
            assert(was[0] == tables@[0]@);
        }
        let len: usize = tables[0].len() / 2;
        let e0 = sum_tables(&tables, comb, 0, len);
        let e1 = s.claim.minus(&e0);
        let e2 = sum_tables(&tables, comb, 2, len);
        let evals: Vec<Scalar> = match comb {
            Comb::Quad => vec![e0, e1, e2],
            _ => {
                let e3 = sum_tables(&tables, comb, 3, len);
                vec![e0, e1, e2, e3]
            },
        };
        assert(evals@ =~= round_evals(was, *comb, s.claim));
        let r = s.round(&evals, &bp[j], &be[j], gens_1, gens_n, t, tape);
        tables = bind_tables(&tables, &r);
        j += 1;
        proof {
            assert(s.at(history(*t), tape@).r.last() == r);
            assert forall|m: int| 0 <= m < rows(tables@).len() implies (
            #[trigger] rows(tables@)[m]).len() == pow2((num_rounds - j) as nat) by {
                assert(was[m].len() == pow2((num_rounds - j + 1) as nat));
            }
        }
    }
    proof {
        vstd::arithmetic::power2::lemma2_to64();
    }
    Finished {
        proof: ZKSumcheckInstanceProof {
            comm_polys: s.comm_polys,
            comm_evals: s.comm_evals,
            proofs: s.proofs,
        },
        r: s.r,
        blind: s.blind,
        tables,
    }
}

impl ZKSumcheckInstanceProof {
    /// Proves that the combinations of the tables sum up to the claim, which
    /// is committed to under a blind. Gives the proof, the challenges, the
    /// value that each table is left with, and the blind of the last claim.
    pub fn prove(
        claim: &Scalar,
        blind_claim: &Scalar,
        num_rounds: usize,
        tables: Vec<Vec<Scalar>>,
        comb: &Comb,
        gens_1: &MultiCommitGens,
        gens_n: &MultiCommitGens,
        t: &mut Transcript,
        tape: &mut RandomTape,
    ) -> (res: (ZKSumcheckInstanceProof, Vec<Scalar>, Vec<Scalar>, Scalar))
        requires
            num_rounds >= 1,
            tables@.len() == comb.arity(),
            all_long(rows(tables@), pow2(num_rounds as nat)),
            gens_1.wf(),
            gens_n.wf(),
            gens_1.n >= 1,
            comb.points() <= gens_n.n,
        ensures
            ({
                let (out, ts) = sumcheck_prove(
                    *claim,
                    *blind_claim,
                    num_rounds as nat,
                    rows(tables@),
                    *comb,
                    gens_1@,
                    gens_n@,
                    history(*old(t)),
                    old(tape)@,
                );
                &&& res.0@ == out.messages()
                &&& res.1@ == out.r
                &&& res.2@ == leftovers(ts)
                &&& res.3 == out.blind
                &&& history(*final(t)) == out.th
                &&& final(tape)@ == out.rh
            }),
            res.1@.len() == num_rounds,
            res.2@.len() == comb.arity(),
    {
        let f = prove_tables(
            claim,
            blind_claim,
            num_rounds,
            tables,
            comb,
            gens_1,
            gens_n,
            t,
            tape,
        );
        let ghost ts = rows(f.tables@);
        let mut claims: Vec<Scalar> = Vec::new();
        let mut m: usize = 0;
        while m < f.tables.len()
            invariant
                m <= f.tables@.len(),
                ts == rows(f.tables@),
                all_long(ts, 1),
                claims@ == leftovers(ts).take(m as int),
            decreases f.tables@.len() - m,
        {
            assert(ts[m as int].len() == 1);
            assert(ts[m as int] == f.tables@[m as int]@);
            claims.push(f.tables[m][0]);
            m += 1;
            assert(claims@ =~= leftovers(ts).take(m as int));
        }
        assert(claims@ =~= leftovers(ts));
        (f.proof, f.r, claims, f.blind)
    }
}

/// The first values of tables.
pub open spec fn leftovers(tables: Seq<Seq<Scalar>>) -> Seq<Scalar> {
    tables.map_values(|t: Seq<Scalar>| t[0])
}

} // verus!
