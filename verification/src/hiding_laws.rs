//! What hides the values in a proof is drawn from the tape.
use crate::commitments::{commitment, Gens};
use crate::nizk::{dot_opening, dot_prove, pair_commitment, scaled};
use crate::random::fresh_tape;
use crate::scalar::{lemma_encoding_injective, Scalar};
use crate::sigma::{equality_prove, knowledge_prove, linear_prove, product_prove};
use crate::sumcheck::{
    first_round, one_round, round_evals, sumcheck_prove, sumcheck_rounds, Comb, Rounds,
};
use crate::transcript::{challenge, challenges, drawn, History};
use crate::unipoly::{interpolated, uni_value};
use crate::vectors::dot;
use vstd::prelude::*;
use vstd::string::StringSliceAdditionalSpecFns;

verus! {

/// Tapes with different seeds are different.
pub proof fn law_tape_binds_seed(name: &str, s: Scalar, t: Scalar)
    requires
        fresh_tape(name, s) == fresh_tape(name, t),
    ensures
        s == t,
{
    let h = seq![(true, "dom-sep"@, name.spec_bytes())];
    crate::binding_laws::law_said_binds(
        h,
        "init_randomness"@,
        s.encoding(),
        h,
        "init_randomness"@,
        t.encoding(),
    );
    lemma_encoding_injective(s, t);
}

/// A proof of knowledge masks value and blind with two scalars from the tape,
/// and leaves the tape behind them.
pub proof fn law_knowledge_masked(g: Gens, x: Scalar, r: Scalar, th: History, rh: History)
    ensures
        ({
            let (p, c_x, th1, rh1) = knowledge_prove(g, x, r, th, rh);
            let next = drawn(rh, "t1"@);
            &&& c_x == commitment(seq![x], r, g)
            &&& p.alpha == commitment(seq![challenge(rh, "t1"@)], challenge(next, "t2"@), g)
            &&& rh1 == drawn(next, "t2"@)
        }),
{
}

/// A proof that two commitments are to one value masks the difference of the
/// blinds with a scalar from the tape, and leaves the tape behind it.
pub proof fn law_equality_masked(
    g: Gens,
    v1: Scalar,
    s1: Scalar,
    v2: Scalar,
    s2: Scalar,
    th: History,
    rh: History,
)
    ensures
        ({
            let (p, th1, rh1) = equality_prove(g, v1, s1, v2, s2, th, rh);
            p.alpha == scaled(g.h, challenge(rh, "r"@)) && rh1 == drawn(rh, "r"@)
        }),
{
}

/// A proof of a product masks both factors and all blinds with five scalars from
/// the tape, and leaves the tape behind them.
pub proof fn law_product_masked(
    g: Gens,
    x: Scalar,
    rx: Scalar,
    y: Scalar,
    ry: Scalar,
    z: Scalar,
    rz: Scalar,
    th: History,
    rh: History,
)
    ensures
        ({
            let o = product_prove(g, x, rx, y, ry, z, rz, th, rh);
            let t1 = drawn(rh, "b1"@);
            let t2 = drawn(t1, "b2"@);
            let t3 = drawn(t2, "b3"@);
            let t4 = drawn(t3, "b4"@);
            &&& o.x == commitment(seq![x], rx, g)
            &&& o.y == commitment(seq![y], ry, g)
            &&& o.z == commitment(seq![z], rz, g)
            &&& o.proof.alpha == commitment(
                seq![challenge(rh, "b1"@)],
                challenge(t1, "b2"@),
                g,
            )
            &&& o.proof.beta == commitment(seq![challenge(t2, "b3"@)], challenge(t3, "b4"@), g)
            &&& o.proof.delta == pair_commitment(
                challenge(t2, "b3"@),
                challenge(t4, "b5"@),
                o.x,
                g.h,
            )
            &&& o.rh == drawn(t4, "b5"@)
        }),
{
}

/// A proof of a product with a public vector masks the vector and both blinds
/// with scalars from the tape, and leaves the tape behind them.
pub proof fn law_linear_masked(
    g1: Gens,
    gn: Gens,
    x: Seq<Scalar>,
    bx: Scalar,
    a: Seq<Scalar>,
    y: Scalar,
    by: Scalar,
    th: History,
    rh: History,
)
    ensures
        ({
            let (p, th1, rh1) = linear_prove(g1, gn, x, bx, a, y, by, th, rh);
            let (d, t1) = challenges(rh, "d_vec"@, x.len());
            let t2 = drawn(t1, "r_delta"@);
            &&& p.delta == commitment(d, challenge(t1, "r_delta"@), gn)
            &&& p.beta == commitment(seq![dot(a, d)], challenge(t2, "r_beta"@), g1)
            &&& rh1 == drawn(t2, "r_beta"@)
        }),
{
    reveal(linear_prove);
}

/// A proof of an inner product masks its last product and the blinds with
/// scalars from the tape.
pub proof fn law_inner_product_masked(
    gn: Gens,
    g1: Gens,
    x: Seq<Scalar>,
    bx: Scalar,
    a: Seq<Scalar>,
    y: Scalar,
    by: Scalar,
    th: History,
    rh: History,
)
    ensures
        ({
            let o = dot_prove(gn, g1, x, bx, a, y, by, th, rh);
            let t1 = drawn(rh, "d"@);
            let t2 = drawn(t1, "r_delta"@);
            let q = scaled(g1.g[0], dot_opening(a, o.cx, o.cy, th).0);
            &&& o.cx == commitment(x, bx, gn)
            &&& o.cy == commitment(seq![y], by, g1)
            &&& o.proof.beta == pair_commitment(
                challenge(rh, "d"@),
                challenge(t2, "r_delta"@),
                q,
                g1.h,
            )
            &&& exists|p: crate::group::CompressedGroup|
                o.proof.delta == #[trigger] pair_commitment(
                    challenge(rh, "d"@),
                    challenge(t1, "r_delta"@),
                    p,
                    g1.h,
                )
        }),
{
    reveal(dot_prove);
}

proof fn lemma_rounds_blinded(
    s: Rounds,
    tables: Seq<Seq<Scalar>>,
    comb: Comb,
    bp: Seq<Scalar>,
    be: Seq<Scalar>,
    g1: Gens,
    gn: Gens,
    k: nat,
    j: int,
)
    requires
        s.comm_polys.len() == 0,
        s.comm_evals.len() == 0,
        0 <= j < k,
    ensures
        ({
            let out = sumcheck_rounds(s, tables, comb, bp, be, g1, gn, k).0;
            &&& out.comm_polys.len() == k
            &&& out.comm_evals.len() == k
            &&& exists|c: Seq<Scalar>|
                out.comm_polys[j] == #[trigger] commitment(c, bp[j], gn)
            &&& exists|v: Scalar|
                out.comm_evals[j] == #[trigger] commitment(seq![v], be[j], g1)
        }),
    decreases k,
{
    reveal(one_round);
    let p = (k - 1) as nat;
    let (s1, t1) = sumcheck_rounds(s, tables, comb, bp, be, g1, gn, p);
    let evals = round_evals(t1, comb, s1.claim);
    let out = one_round(s1, evals, bp[k - 1], be[k - 1], g1, gn);
    if p > 0 {
        lemma_rounds_blinded(s, tables, comb, bp, be, g1, gn, p, 0);
    }
    if j < p {
        lemma_rounds_blinded(s, tables, comb, bp, be, g1, gn, p, j);
    } else {
        let c = interpolated(evals);
        assert(out.comm_polys[j] == commitment(c, bp[j], gn));
        let v = uni_value(c, out.r.last());
        assert(out.comm_evals[j] == commitment(seq![v], be[j], g1));
    }
}

/// A sum-check commits to the polynomial and to the claim of each round under
/// blinds from the tape.
pub proof fn law_sumcheck_blinded(
    claim: Scalar,
    blind: Scalar,
    n: nat,
    tables: Seq<Seq<Scalar>>,
    comb: Comb,
    g1: Gens,
    gn: Gens,
    th: History,
    rh: History,
    j: int,
)
    requires
        0 <= j < n,
    ensures
        ({
            let out = sumcheck_prove(claim, blind, n, tables, comb, g1, gn, th, rh).0;
            let (bp, rh1) = challenges(rh, "blinds_poly"@, n);
            let be = challenges(rh1, "blinds_evals"@, n).0;
            &&& exists|c: Seq<Scalar>|
                out.comm_polys[j] == #[trigger] commitment(c, bp[j], gn)
            &&& exists|v: Scalar|
                out.comm_evals[j] == #[trigger] commitment(seq![v], be[j], g1)
        }),
{
    let (bp, rh1) = challenges(rh, "blinds_poly"@, n);
    let (be, rh2) = challenges(rh1, "blinds_evals"@, n);
    lemma_rounds_blinded(
        first_round(claim, blind, g1, th, rh2),
        tables,
        comb,
        bp,
        be,
        g1,
        gn,
        n,
        j,
    );
}

} // verus!
