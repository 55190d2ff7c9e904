//! The Ristretto group, through the encodings of its elements.
//!
//! An element is held as its 32-byte encoding. What `curve25519_dalek`
//! computes on elements is named, encoding to encoding.
use crate::scalar::{bytes_equal, lemma_of_view, lemma_scalar_injective, order, Scalar};
use crate::vectors::{dot, lemma_sum_canonical, pointwise};
use curve25519_dalek::ristretto::{CompressedRistretto, RistrettoPoint};
use curve25519_dalek::scalar::Scalar as DalekScalar;
use curve25519_dalek::traits::VartimeMultiscalarMul;
use sha3::digest::{ExtendableOutput, Input};
use sha3::Shake256;
use vstd::array::spec_array_update;
use vstd::prelude::*;

verus! {

/// The encoding of a multiple of the point with the given encoding: what
/// scalar multiplication of a `RistrettoPoint`, compressed, gives.
pub uninterp spec fn ristretto_multiple(point: Seq<u8>, n: nat) -> Seq<u8>;

/// The encoding of `RistrettoPoint::from_uniform_bytes`.
pub uninterp spec fn ristretto_from_uniform(bytes: Seq<u8>) -> Seq<u8>;

/// The byte at a position of the stream that SHAKE256 gives for an input.
pub uninterp spec fn shake256_byte(input: Seq<u8>, i: nat) -> u8;

/// `RistrettoPoint::optional_multiscalar_mul` on the decompressed points:
/// `None` exactly where some point does not decompress, that is where its
/// bytes are no encoding of a multiple of the base point, and otherwise the
/// compressed linear combination. In terms of the multiples that the points
/// are, that is the multiple by the inner product.
#[verifier::external_body]
fn dalek_msm(scalars: &Vec<Scalar>, points: &Vec<CompressedGroup>) -> (r: Option<[u8; 32]>)
    requires
        scalars@.len() == points@.len(),
    ensures
        r is Some <==> all_valid(points@),
        r matches Some(b) ==> b@ == encoded(dot(scalars@, logs(points@))@),
{
    RistrettoPoint::optional_multiscalar_mul(
        scalars.iter().map(|s| DalekScalar::from_bits(s.to_bytes())),
        points.iter().map(|p| CompressedRistretto(p.bytes).decompress()),
    ).map(|p| p.compress().to_bytes())
}

/// `RistrettoPoint::from_uniform_bytes`, compressed: a function of its 64
/// bytes, and the encoding of a group element, which is a multiple of the base
/// point.
#[verifier::external_body]
fn dalek_from_uniform(bytes: [u8; 64]) -> (r: [u8; 32])
    ensures
        r@ == ristretto_from_uniform(bytes@),
        is_multiple(r@),
{
    RistrettoPoint::from_uniform_bytes(&bytes).compress().to_bytes()
}

/// The compressed base point of `curve25519_dalek`, byte by byte. Its multiples
/// are encoded in 32 bytes, and its order is that of the scalars: its multiples
/// below the order have different encodings.
#[verifier::external_body]
pub(crate) fn dalek_basepoint() -> (r: [u8; 32])
    ensures
        r@ == basepoint_encoding(),
        forall|a: nat| (#[trigger] ristretto_multiple(r@, a)).len() == 32,
        forall|a: nat, b: nat|
            a < order() && b < order() && #[trigger] ristretto_multiple(r@, a)
                == #[trigger] ristretto_multiple(r@, b) ==> a == b,
{
    curve25519_dalek::constants::RISTRETTO_BASEPOINT_COMPRESSED.to_bytes()
}

/// `Shake256` of `sha3`: absorbs the input, then gives the first `len` bytes of
/// its output stream, each a function of the input and its position.
#[verifier::external_body]
pub(crate) fn shake256(input: &Vec<u8>, len: usize) -> (r: Vec<u8>)
    requires
        len <= isize::MAX,
    ensures
        r@.len() == len,
        forall|i: int| 0 <= i < len ==> #[trigger] r@[i] == shake256_byte(input@, i as nat),
{
    Shake256::default().chain(input).vec_result(len)
}

/// The first bytes that SHAKE256 gives for an input.
pub open spec fn shake256_output(input: Seq<u8>, len: nat) -> Seq<u8> {
    Seq::new(len, |i: int| shake256_byte(input, i as nat))
}

/// The encoding of the Ristretto base point.
pub open spec fn basepoint_encoding() -> Seq<u8> {
    seq![
        0xe2u8, 0xf2, 0xae, 0x0a, 0x6a, 0xbc, 0x4e, 0x71, 0xa8, 0x84, 0xa9, 0x61, 0xc5, 0x00, 0x51,
        0x5f, 0x58, 0xe3, 0x0b, 0x6a, 0xa5, 0x82, 0xdd, 0x8d, 0xb6, 0xa6, 0x59, 0x45, 0xe0, 0x8d,
        0x2d, 0x76,
    ]
}

/// The encoding of a multiple of the base point.
pub open spec fn encoded(n: nat) -> Seq<u8> {
    ristretto_multiple(basepoint_encoding(), n)
}

/// Whether bytes are the encoding of a group element.
pub open spec fn is_multiple(bytes: Seq<u8>) -> bool {
    exists|n: nat| n < order() && #[trigger] encoded(n) == bytes
}

/// Whether multiples of the base point are encoded in 32 bytes, and different
/// ones in different bytes.
pub open spec fn encodes_uniquely() -> bool {
    &&& forall|a: nat| (#[trigger] encoded(a)).len() == 32
    &&& forall|a: nat, b: nat|
        a < order() && b < order() && #[trigger] encoded(a) == #[trigger] encoded(b) ==> a == b
}

/// The base point. That multiples of it are encoded uniquely is known after a
/// call.
pub fn base_point() -> (r: CompressedGroup)
    ensures
        r.encoding() == basepoint_encoding(),
        encodes_uniquely(),
{
    CompressedGroup { bytes: dalek_basepoint() }
}

/// A group element, or any 32 bytes in its place.
#[derive(Clone, Copy, Debug)]
pub struct CompressedGroup {
    bytes: [u8; 32],
}

impl CompressedGroup {
    /// The 32 bytes.
    pub closed spec fn encoding(self) -> Seq<u8> {
        self.bytes@
    }

    /// The one with the given bytes.
    pub closed spec fn of(bytes: Seq<u8>) -> CompressedGroup {
        choose|p: CompressedGroup| p.encoding() == bytes
    }

    /// Whether the bytes are the encoding of a group element.
    pub open spec fn valid(self) -> bool {
        is_multiple(self.encoding())
    }

    /// The multiple of the base point that this is.
    pub open spec fn log(self) -> Scalar {
        Scalar::of(choose|n: nat| n < order() && #[trigger] encoded(n) == self.encoding())
    }

    /// Takes 32 bytes as they are.
    pub fn from_bytes(bytes: &[u8; 32]) -> (r: CompressedGroup)
        ensures
            r.encoding() == bytes@,
            r == CompressedGroup::of(bytes@),
    {
        let r = CompressedGroup { bytes: *bytes };
        proof {
            lemma_group_of_encoding(r);
        }
        r
    }

    /// The 32 bytes.
    pub fn to_bytes(&self) -> (r: [u8; 32])
        ensures
            r@ == self.encoding(),
    {
        self.bytes
    }

    /// Whether two encodings are the same.
    pub fn equals(&self, other: &CompressedGroup) -> (r: bool)
        ensures
            r == (*self == *other),
    {
        bytes_equal(&self.bytes, &other.bytes)
    }
}

/// An encoding is determined by its bytes.
pub proof fn lemma_group_of_encoding(p: CompressedGroup)
    ensures
        CompressedGroup::of(p.encoding()) == p,
{
    let c = CompressedGroup::of(p.encoding());
    assert(c.encoding() == p.encoding());
    assert(c.bytes =~= p.bytes);
}

/// An encoding has 32 bytes.
pub proof fn lemma_encoding_len(p: CompressedGroup)
    ensures
        p.encoding().len() == 32,
{
}

/// Any 32 bytes are those of an encoding.
pub proof fn lemma_of_bytes(bytes: Seq<u8>)
    requires
        bytes.len() == 32,
    ensures
        CompressedGroup::of(bytes).encoding() == bytes,
{
    let start: [u8; 32] = arbitrary();
    let a = filled(start, bytes, 0);
    lemma_filled(start, bytes, 0);
    assert(a@ =~= bytes);
    let p = CompressedGroup { bytes: a };
    assert(p.encoding() == bytes);
}

/// An array with the given bytes from a position on.
spec fn filled(a: [u8; 32], bytes: Seq<u8>, i: nat) -> [u8; 32]
    decreases 32 - i,
{
    if i >= 32 {
        a
    } else {
        filled(spec_array_update(a, i as int, bytes[i as int]), bytes, i + 1)
    }
}

proof fn lemma_filled(a: [u8; 32], bytes: Seq<u8>, i: nat)
    requires
        i <= 32,
        bytes.len() == 32,
        forall|j: int| 0 <= j < i ==> a@[j] == bytes[j],
    ensures
        forall|j: int| 0 <= j < 32 ==> filled(a, bytes, i)@[j] == bytes[j],
    decreases 32 - i,
{
    if i < 32 {
        lemma_filled(spec_array_update(a, i as int, bytes[i as int]), bytes, i + 1);
    }
}

/// A group element is the multiple that its logarithm names.
pub proof fn lemma_log(p: CompressedGroup)
    requires
        p.valid(),
    ensures
        p.log().canonical(),
        encoded(p.log()@) == p.encoding(),
{
    let n = choose|n: nat| n < order() && #[trigger] encoded(n) == p.encoding();
    lemma_of_view(n);
}

/// A linear combination is a group element, and its logarithm is the inner
/// product with the logarithms.
pub proof fn lemma_msm(scalars: Seq<Scalar>, points: Seq<CompressedGroup>)
    requires
        encodes_uniquely(),
    ensures
        msm(scalars, points).valid(),
        msm(scalars, points).log() == dot(scalars, logs(points)),
{
    reveal(msm);
    let d = dot(scalars, logs(points));
    let p = msm(scalars, points);
    lemma_sum_canonical(pointwise(scalars, logs(points)));
    lemma_of_bytes(encoded(d@));
    assert(encoded(d@) == p.encoding());
    assert(p.valid());
    lemma_log(p);
    assert(encoded(p.log()@) == encoded(d@));
    lemma_scalar_injective(p.log(), d);
}

/// The multiples of the base point that points are.
pub open spec fn logs(s: Seq<CompressedGroup>) -> Seq<Scalar> {
    s.map_values(|p: CompressedGroup| p.log())
}

/// Whether every point of a sequence is the encoding of a group element.
pub open spec fn all_valid(points: Seq<CompressedGroup>) -> bool {
    forall|i: int| 0 <= i < points.len() ==> (#[trigger] points[i]).valid()
}

/// The linear combination of points by scalars.
#[verifier::opaque]
pub open spec fn msm(scalars: Seq<Scalar>, points: Seq<CompressedGroup>) -> CompressedGroup {
    CompressedGroup::of(encoded(dot(scalars, logs(points))@))
}

/// The linear combination of points, `None` where one of them is no encoding.
pub fn try_multiscalar_mul(scalars: &Vec<Scalar>, points: &Vec<CompressedGroup>) -> (r: Option<
    CompressedGroup,
>)
    requires
        scalars@.len() == points@.len(),
    ensures
        r is Some <==> all_valid(points@),
        r matches Some(p) ==> p == msm(scalars@, points@) && p.valid(),
{
    match dalek_msm(scalars, points) {
        Some(bytes) => {
            let r = CompressedGroup { bytes };
            proof {
                reveal(msm);
                lemma_group_of_encoding(r);
                lemma_sum_canonical(pointwise(scalars@, logs(points@)));
                assert(encoded(dot(scalars@, logs(points@))@) == r.encoding());
            }
            Some(r)
        },
        None => None,
    }
}

/// The linear combination of group elements.
pub fn multiscalar_mul(scalars: &Vec<Scalar>, points: &Vec<CompressedGroup>) -> (r: CompressedGroup)
    requires
        scalars@.len() == points@.len(),
        all_valid(points@),
    ensures
        r == msm(scalars@, points@),
        r.valid(),
{
    match try_multiscalar_mul(scalars, points) {
        Some(p) => p,
        None => CompressedGroup { bytes: [0;32] },
    }
}

/// The group element derived from 64 bytes.
pub open spec fn from_uniform(bytes: Seq<u8>) -> CompressedGroup {
    CompressedGroup::of(ristretto_from_uniform(bytes))
}

/// Derives a group element from 64 bytes.
pub fn point_from_uniform(bytes: [u8; 64]) -> (r: CompressedGroup)
    ensures
        r == from_uniform(bytes@),
        r.valid(),
{
    let r = CompressedGroup { bytes: dalek_from_uniform(bytes) };
    proof {
        lemma_group_of_encoding(r);
    }
    r
}

} // verus!
