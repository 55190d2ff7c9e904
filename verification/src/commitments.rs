//! Pedersen commitments to vectors.
use crate::group::{
    all_valid, basepoint_encoding, dalek_basepoint, from_uniform, msm, multiscalar_mul,
    point_from_uniform, shake256, shake256_byte, CompressedGroup,
};
use crate::scalar::Scalar;
use vstd::prelude::*;

verus! {

/// The generators of a commitment scheme.
pub struct MultiCommitGens {
    /// The number of generators for values.
    pub n: usize,
    /// The generators for values.
    pub g: Vec<CompressedGroup>,
    /// The generator for the blind.
    pub h: CompressedGroup,
}

/// What a set of generators holds.
pub struct Gens {
    /// The generators for values.
    pub g: Seq<CompressedGroup>,
    /// The generator for the blind.
    pub h: CompressedGroup,
}

/// The generator at a position of the stream that a label yields: each is made
/// of 64 bytes of the hash of the label and the base point.
pub open spec fn derived_point(label: Seq<u8>, i: int) -> CompressedGroup {
    from_uniform(
        Seq::new(64, |j: int| shake256_byte(label + basepoint_encoding(), (64 * i + j) as nat)),
    )
}

/// The generators that a label yields: `n` for values, and one more for the
/// blind.
pub open spec fn derived_gens(label: Seq<u8>, n: nat) -> Gens {
    Gens {
        g: Seq::new(n, |i: int| derived_point(label, i)),
        h: derived_point(label, n as int),
    }
}

/// The commitment to a vector under a blind.
pub open spec fn commitment(x: Seq<Scalar>, blind: Scalar, gens: Gens) -> CompressedGroup {
    msm(x.push(blind), gens.g.take(x.len() as int).push(gens.h))
}

/// The largest number of generators that one label is asked for.
pub open spec fn gens_bound() -> nat {
    (isize::MAX / 64 - 1) as nat
}

impl View for MultiCommitGens {
    type V = Gens;

    open spec fn view(&self) -> Gens {
        Gens { g: self.g@, h: self.h }
    }
}

impl MultiCommitGens {
    /// The generators are group elements, and as many as stated.
    pub open spec fn wf(self) -> bool {
        &&& self.n == self.g@.len()
        &&& all_valid(self.g@)
        &&& self.h.valid()
    }

    /// Derives generators from a label.
    pub fn new(n: usize, label: &[u8]) -> (r: MultiCommitGens)
        requires
            n <= gens_bound(),
        ensures
            r.wf(),
            r.n == n,
            r@ == derived_gens(label@, n as nat),
    {
        let mut input: Vec<u8> = Vec::new();
        input.extend_from_slice(label);
        let base = dalek_basepoint();
        input.extend_from_slice(base.as_slice());
        assert(input@ =~= label@ + basepoint_encoding());
        let bytes = shake256(&input, 64 * (n + 1));
        let ghost stream = label@ + basepoint_encoding();
        let mut g: Vec<CompressedGroup> = Vec::new();
        let mut i: usize = 0;
        while i < n
            invariant
                i <= n,
                n <= gens_bound(),
                stream == label@ + basepoint_encoding(),
                bytes@.len() == 64 * (n + 1),
                forall|j: int|
                    0 <= j < bytes@.len() ==> #[trigger] bytes@[j] == shake256_byte(
                        stream,
                        j as nat,
                    ),
                g@.len() == i,
                all_valid(g@),
                forall|j: int| 0 <= j < i ==> g@[j] == derived_point(label@, j),
            decreases n - i,
        {
            let c = chunk(&bytes, i);
            assert(c@ =~= Seq::new(64, |j: int| shake256_byte(stream, (64 * i + j) as nat)));
            g.push(point_from_uniform(c));
            i += 1;
        }
        let c = chunk(&bytes, n);
        assert(c@ =~= Seq::new(64, |j: int| shake256_byte(stream, (64 * n + j) as nat)));
        let h = point_from_uniform(c);
        let r = MultiCommitGens { n, g, h };
        assert(r@.g =~= derived_gens(label@, n as nat).g);
        r
    }

    /// Commits to a vector that is no longer than the list of generators.
    pub fn commit(&self, x: &Vec<Scalar>, blind: &Scalar) -> (r: CompressedGroup)
        requires
            self.wf(),
            x@.len() <= self.n,
        ensures
            r == commitment(x@, *blind, self@),
            r.valid(),
    {
        let mut scalars: Vec<Scalar> = x.clone();
        assert(scalars@ =~= x@);
        scalars.push(*blind);
        let mut points: Vec<CompressedGroup> = first_points(&self.g, x.len());
        points.push(self.h);
        multiscalar_mul(&scalars, &points)
    }

    /// Commits to one scalar.
    pub fn commit_one(&self, x: &Scalar, blind: &Scalar) -> (r: CompressedGroup)
        requires
            self.wf(),
            self.n >= 1,
        ensures
            r == commitment(seq![*x], *blind, self@),
            r.valid(),
    {
        let v: Vec<Scalar> = vec![*x];
        assert(v@ =~= seq![*x]);
        self.commit(&v, blind)
    }

    /// The same generators, those for values from `mid` on apart from the rest.
    pub fn split_at(&self, mid: usize) -> (r: (MultiCommitGens, MultiCommitGens))
        requires
            self.wf(),
            mid <= self.n,
        ensures
            r.0.wf(),
            r.1.wf(),
            r.0@ == (Gens { g: self@.g.take(mid as int), h: self@.h }),
            r.1@ == (Gens { g: self@.g.skip(mid as int), h: self@.h }),
    {
        let front = first_points(&self.g, mid);
        let mut back: Vec<CompressedGroup> = Vec::new();
        let mut i: usize = mid;
        while i < self.n
            invariant
                self.wf(),
                mid <= i <= self.n,
                back@ == self.g@.subrange(mid as int, i as int),
            decreases self.n - i,
        {
            back.push(self.g[i]);
            i += 1;
            assert(back@ =~= self.g@.subrange(mid as int, i as int));
        }
        assert(back@ =~= self.g@.skip(mid as int));
        (
            MultiCommitGens { n: mid, g: front, h: self.h },
            MultiCommitGens { n: self.n - mid, g: back, h: self.h },
        )
    }
}

/// The `i`-th block of 64 bytes.
fn chunk(bytes: &Vec<u8>, i: usize) -> (r: [u8; 64])
    requires
        64 * i + 64 <= bytes@.len(),
    ensures
        r@ == bytes@.subrange(64 * i, 64 * i + 64),
{
    let n: usize = bytes.len();
    let mut r: [u8; 64] = [0;64];
    let mut j: usize = 0;
    while j < 64
        invariant
            j <= 64,
            n == bytes@.len(),
            64 * i + 64 <= bytes@.len(),
            forall|k: int| 0 <= k < j ==> r@[k] == bytes@[64 * i + k],
        decreases 64 - j,
    {
        r[j] = bytes[64 * i + j];
        j += 1;
    }
    assert(r@ =~= bytes@.subrange(64 * i, 64 * i + 64));
    r
}

/// The first `n` points of a list.
pub fn first_points(points: &Vec<CompressedGroup>, n: usize) -> (r: Vec<CompressedGroup>)
    requires
        n <= points@.len(),
    ensures
        r@ == points@.take(n as int),
{
    let mut r: Vec<CompressedGroup> = Vec::new();
    let mut i: usize = 0;
    while i < n
        invariant
            i <= n <= points@.len(),
            r@ == points@.take(i as int),
        decreases n - i,
    {
        r.push(points[i]);
        i += 1;
        assert(r@ =~= points@.take(i as int));
    }
    r
}

} // verus!
