//! The scalar field of the Ristretto group.
//!
//! A `Scalar` is an integer modulo the prime order of the group. Its model is
//! the integer itself; the arithmetic of `curve25519_dalek` is trusted to be
//! the arithmetic of the integers modulo the order.
use curve25519_dalek::scalar::Scalar as DalekScalar;
use rand::rngs::OsRng;
use vstd::array::spec_array_update;
use vstd::prelude::*;

verus! {

/// The prime order of the Ristretto group.
pub open spec fn order() -> nat {
    7237005577332262213973186563042994240857116359379907606001950938285454250989nat
}

/// The integer that a byte string encodes, least significant byte first.
pub open spec fn le_value(s: Seq<u8>) -> nat
    decreases s.len(),
{
    if s.len() == 0 {
        0
    } else {
        s[0] as nat + 256 * le_value(s.drop_first())
    }
}

/// `DalekScalar::from_canonical_bytes`: accepts exactly the encodings of the
/// integers below the order, and keeps the bytes.
#[verifier::external_body]
fn dalek_from_canonical_bytes(bytes: [u8; 32]) -> (r: Option<[u8; 32]>)
    ensures
        r is Some <==> le_value(bytes@) < order(),
        r matches Some(b) ==> b@ == bytes@,
{
    DalekScalar::from_canonical_bytes(bytes).map(|s| s.to_bytes())
}

/// `DalekScalar::from_bytes_mod_order_wide`: the remainder modulo the order of
/// the integer that 64 bytes encode.
#[verifier::external_body]
fn dalek_from_bytes_wide(bytes: [u8; 64]) -> (r: [u8; 32])
    ensures
        le_value(r@) == le_value(bytes@) % order(),
{
    DalekScalar::from_bytes_mod_order_wide(&bytes).to_bytes()
}

/// `DalekScalar::from` for `u64`: the integer itself.
#[verifier::external_body]
fn dalek_from_u64(x: u64) -> (r: [u8; 32])
    ensures
        le_value(r@) == x,
{
    DalekScalar::from(x).to_bytes()
}

/// `Add` of `DalekScalar`: addition modulo the order.
#[verifier::external_body]
fn dalek_add(a: [u8; 32], b: [u8; 32]) -> (r: [u8; 32])
    requires
        le_value(a@) < order(),
        le_value(b@) < order(),
    ensures
        le_value(r@) == (le_value(a@) + le_value(b@)) % order(),
{
    (DalekScalar::from_bits(a) + DalekScalar::from_bits(b)).to_bytes()
}

/// `Sub` of `DalekScalar`: subtraction modulo the order.
#[verifier::external_body]
fn dalek_sub(a: [u8; 32], b: [u8; 32]) -> (r: [u8; 32])
    requires
        le_value(a@) < order(),
        le_value(b@) < order(),
    ensures
        le_value(r@) == (le_value(a@) + order() - le_value(b@)) as nat % order(),
{
    (DalekScalar::from_bits(a) - DalekScalar::from_bits(b)).to_bytes()
}

/// `Mul` of `DalekScalar`: multiplication modulo the order.
#[verifier::external_body]
fn dalek_mul(a: [u8; 32], b: [u8; 32]) -> (r: [u8; 32])
    requires
        le_value(a@) < order(),
        le_value(b@) < order(),
    ensures
        le_value(r@) == (le_value(a@) * le_value(b@)) % order(),
{
    (DalekScalar::from_bits(a) * DalekScalar::from_bits(b)).to_bytes()
}

/// `DalekScalar::invert`: the multiplicative inverse of a nonzero element.
#[verifier::external_body]
fn dalek_invert(a: [u8; 32]) -> (r: [u8; 32])
    requires
        0 < le_value(a@) < order(),
    ensures
        le_value(r@) < order(),
        (le_value(a@) * le_value(r@)) % order() == 1,
{
    DalekScalar::from_bits(a).invert().to_bytes()
}

/// `DalekScalar::random` on the generator of the operating system: some
/// element of the field. Which one is left to chance.
#[verifier::external_body]
fn dalek_random() -> (r: [u8; 32])
    ensures
        le_value(r@) < order(),
{
    DalekScalar::random(&mut OsRng).to_bytes()
}

/// An element of the scalar field, held as its canonical encoding.
#[derive(Clone, Copy, Debug)]
pub struct Scalar {
    bytes: [u8; 32],
}

impl View for Scalar {
    type V = nat;

    closed spec fn view(&self) -> nat {
        le_value(self.bytes@)
    }
}

impl Scalar {
    #[verifier::type_invariant]
    spec fn reduced(self) -> bool {
        self@ < order()
    }

    /// The element whose integer is `n`.
    pub closed spec fn of(n: nat) -> Scalar {
        choose|s: Scalar| s@ == n
    }

    /// Whether the element is held by its representative below the order.
    pub open spec fn canonical(self) -> bool {
        self@ < order()
    }

    /// The 32 bytes of the canonical encoding.
    pub closed spec fn encoding(self) -> Seq<u8> {
        self.bytes@
    }
}

/// The sum in the field.
pub open spec fn sadd(a: Scalar, b: Scalar) -> Scalar {
    Scalar::of((a@ + b@) % order())
}

/// The difference in the field.
pub open spec fn ssub(a: Scalar, b: Scalar) -> Scalar {
    Scalar::of((a@ + order() - b@) as nat % order())
}

/// The product in the field.
pub open spec fn smul(a: Scalar, b: Scalar) -> Scalar {
    Scalar::of((a@ * b@) % order())
}

/// The neutral element of addition.
pub open spec fn szero() -> Scalar {
    Scalar::of(0)
}

/// The neutral element of multiplication.
pub open spec fn sone() -> Scalar {
    Scalar::of(1)
}

/// Byte strings of one length encode different integers.
pub proof fn lemma_le_value_injective(a: Seq<u8>, b: Seq<u8>)
    requires
        a.len() == b.len(),
        le_value(a) == le_value(b),
    ensures
        a == b,
    decreases a.len(),
{
    if a.len() > 0 {
        lemma_le_value_injective(a.drop_first(), b.drop_first());
        assert(a.drop_first()[0] == b.drop_first()[0] || a.len() == 1);
        assert forall|i: int| 0 <= i < a.len() implies a[i] == b[i] by {
            if i > 0 {
                assert(a[i] == a.drop_first()[i - 1]);
                assert(b[i] == b.drop_first()[i - 1]);
            }
        }
    }
    assert(a =~= b);
}

/// An element is determined by its integer.
pub proof fn lemma_scalar_injective(a: Scalar, b: Scalar)
    requires
        a@ == b@,
    ensures
        a == b,
{
    lemma_le_value_injective(a.bytes@, b.bytes@);
    assert(a.bytes =~= b.bytes);
}

/// A power of 256.
spec fn pow256(k: nat) -> nat
    decreases k,
{
    if k == 0 {
        1
    } else {
        256 * pow256((k - 1) as nat)
    }
}

/// An array with the bytes of a number from a position on.
spec fn filled(a: [u8; 32], n: nat, i: nat) -> [u8; 32]
    decreases 32 - i,
{
    if i >= 32 {
        a
    } else {
        filled(spec_array_update(a, i as int, (n % 256) as u8), n / 256, i + 1)
    }
}

proof fn lemma_filled(a: [u8; 32], n: nat, i: nat)
    requires
        i <= 32,
        n < pow256((32 - i) as nat),
    ensures
        forall|j: int| 0 <= j < i ==> filled(a, n, i)@[j] == a@[j],
        le_value(filled(a, n, i)@.skip(i as int)) == n,
    decreases 32 - i,
{
    if i < 32 {
        let b = spec_array_update(a, i as int, (n % 256) as u8);
        lemma_filled(b, n / 256, i + 1);
        let f = filled(a, n, i)@;
        assert(f[i as int] == b@[i as int]);
        assert(f.skip(i as int).drop_first() =~= f.skip(i as int + 1));
        assert forall|j: int| 0 <= j < i implies f[j] == a@[j] by {
            assert(f[j] == b@[j]);
        }
    }
}

/// Every integer below the order is that of an element.
pub proof fn lemma_of_view(n: nat)
    requires
        n < order(),
    ensures
        Scalar::of(n)@ == n,
{
    reveal_with_fuel(pow256, 33);
    let start: [u8; 32] = arbitrary();
    let bytes = filled(start, n, 0);
    lemma_filled(start, n, 0);
    assert(bytes@.skip(0) =~= bytes@);
    let s = Scalar { bytes };
    assert(s@ == n);
}

/// The integer of a sum.
pub proof fn lemma_sadd_view(a: Scalar, b: Scalar)
    ensures
        sadd(a, b)@ == (a@ + b@) % order(),
        sadd(a, b).canonical(),
{
    lemma_of_view((a@ + b@) % order());
}

/// The integer of a difference, where what is taken away is reduced.
pub proof fn lemma_ssub_view(a: Scalar, b: Scalar)
    requires
        b.canonical(),
    ensures
        ssub(a, b)@ == (a@ - b@) % (order() as int),
        ssub(a, b).canonical(),
{
    let q = order() as int;
    lemma_of_view((a@ + order() - b@) as nat % order());
    assert((a@ + q - b@) % q == (a@ - b@) % q) by {
        vstd::arithmetic::div_mod::lemma_mod_add_multiples_vanish(a@ - b@, q);
    }
}

/// The integer of a product.
pub proof fn lemma_smul_view(a: Scalar, b: Scalar)
    ensures
        smul(a, b)@ == (a@ * b@) % order(),
        smul(a, b).canonical(),
{
    lemma_of_view((a@ * b@) % order());
}

/// The integers of zero and one.
pub proof fn lemma_constants()
    ensures
        szero()@ == 0,
        sone()@ == 1,
        szero().canonical(),
        sone().canonical(),
{
    lemma_of_view(0);
    lemma_of_view(1);
}

/// The encoding of an element has 32 bytes, which encode its integer.
pub proof fn lemma_encoding(a: Scalar)
    ensures
        a.encoding().len() == 32,
        le_value(a.encoding()) == a@,
{
}

/// The element whose integer 32 bytes encode has these bytes as its encoding.
pub proof fn lemma_encoding_of(bytes: Seq<u8>)
    requires
        bytes.len() == 32,
        le_value(bytes) < order(),
    ensures
        Scalar::of(le_value(bytes)).encoding() == bytes,
        Scalar::of(le_value(bytes))@ == le_value(bytes),
{
    lemma_of_view(le_value(bytes));
    let s = Scalar::of(le_value(bytes));
    lemma_encoding(s);
    lemma_le_value_injective(s.encoding(), bytes);
}

/// Elements with one encoding are the same.
pub proof fn lemma_encoding_injective(a: Scalar, b: Scalar)
    requires
        a.encoding() == b.encoding(),
    ensures
        a == b,
{
    lemma_encoding(a);
    lemma_encoding(b);
    lemma_scalar_injective(a, b);
}

/// An element is the one named by its integer.
pub proof fn lemma_scalar_of_view(a: Scalar)
    ensures
        Scalar::of(a@) == a,
{
    let c = Scalar::of(a@);
    assert(c@ == a@);
    lemma_scalar_injective(a, c);
}

impl Scalar {
    /// The zero of the field.
    pub fn zero() -> (r: Scalar)
        ensures
            r == szero(),
            r@ == 0,
    {
        Scalar::from_u64(0)
    }

    /// The one of the field.
    pub fn one() -> (r: Scalar)
        ensures
            r == sone(),
            r@ == 1,
    {
        Scalar::from_u64(1)
    }

    /// The element of an integer.
    pub fn from_u64(x: u64) -> (r: Scalar)
        ensures
            r == Scalar::of(x as nat),
            r@ == x,
    {
        let r = Scalar { bytes: dalek_from_u64(x) };
        proof {
            lemma_scalar_of_view(r);
        }
        r
    }

    /// Reads a canonical encoding; any other 32 bytes are refused.
    pub fn from_bytes(bytes: &[u8; 32]) -> (r: Option<Scalar>)
        ensures
            r is Some <==> le_value(bytes@) < order(),
            r matches Some(s) ==> s@ == le_value(bytes@) && s.encoding() == bytes@ && s
                == Scalar::of(le_value(bytes@)),
    {
        match dalek_from_canonical_bytes(*bytes) {
            Some(b) => {
                let r = Scalar { bytes: b };
                proof {
                    lemma_scalar_of_view(r);
                }
                Some(r)
            },
            None => None,
        }
    }

    /// Reduces 64 bytes modulo the order.
    pub fn from_bytes_wide(bytes: &[u8; 64]) -> (r: Scalar)
        ensures
            r == Scalar::of(le_value(bytes@) % order()),
            r@ == le_value(bytes@) % order(),
    {
        let r = Scalar { bytes: dalek_from_bytes_wide(*bytes) };
        proof {
            lemma_scalar_of_view(r);
        }
        r
    }

    /// The canonical encoding.
    pub fn to_bytes(&self) -> (r: [u8; 32])
        ensures
            r@ == self.encoding(),
            le_value(r@) == self@,
            self@ < order(),
    {
        proof {
            use_type_invariant(self);
        }
        self.bytes
    }

    /// `self + other`.
    pub fn plus(&self, other: &Scalar) -> (r: Scalar)
        ensures
            r == sadd(*self, *other),
    {
        proof {
            use_type_invariant(self);
            use_type_invariant(other);
        }
        let r = Scalar { bytes: dalek_add(self.bytes, other.bytes) };
        proof {
            lemma_scalar_of_view(r);
        }
        r
    }

    /// `self - other`.
    pub fn minus(&self, other: &Scalar) -> (r: Scalar)
        ensures
            r == ssub(*self, *other),
    {
        proof {
            use_type_invariant(self);
            use_type_invariant(other);
        }
        let r = Scalar { bytes: dalek_sub(self.bytes, other.bytes) };
        proof {
            lemma_scalar_of_view(r);
        }
        r
    }

    /// `self * other`.
    pub fn times(&self, other: &Scalar) -> (r: Scalar)
        ensures
            r == smul(*self, *other),
    {
        proof {
            use_type_invariant(self);
            use_type_invariant(other);
        }
        let r = Scalar { bytes: dalek_mul(self.bytes, other.bytes) };
        proof {
            lemma_scalar_of_view(r);
        }
        r
    }

    /// The multiplicative inverse, of any element but zero.
    pub fn invert(&self) -> (r: Option<Scalar>)
        ensures
            r is Some <==> self@ != 0,
            r matches Some(i) ==> i == sinv(*self) && is_inverse(*self, i),
    {
        proof {
            use_type_invariant(self);
        }
        if self.equals(&Scalar::zero()) {
            None
        } else {
            proof {
                lemma_scalar_zero_view(*self);
            }
            let r = Scalar { bytes: dalek_invert(self.bytes) };
            proof {
                assert(is_inverse(*self, r));
                let i = sinv(*self);
                assert(is_inverse(*self, i));
                lemma_inverse_unique(self@, r@, i@);
                lemma_scalar_injective(r, i);
            }
            Some(r)
        }
    }

    /// An element drawn by the operating system's generator.
    pub fn random() -> (r: Scalar)
        ensures
            r.canonical(),
    {
        Scalar { bytes: dalek_random() }
    }

    /// Whether two elements are the same.
    pub fn equals(&self, other: &Scalar) -> (r: bool)
        ensures
            r == (*self == *other),
    {
        bytes_equal(&self.bytes, &other.bytes)
    }
}

proof fn lemma_scalar_zero_view(a: Scalar)
    requires
        a != szero(),
    ensures
        a@ != 0,
{
    if a@ == 0 {
        lemma_scalar_of_view(a);
    }
}

/// Whether `b` is the reduced inverse of `a`.
pub open spec fn is_inverse(a: Scalar, b: Scalar) -> bool {
    b@ < order() && (a@ * b@) % order() == 1
}

/// The inverse of a nonzero element.
pub closed spec fn sinv(a: Scalar) -> Scalar {
    choose|b: Scalar| is_inverse(a, b)
}

/// Where an element has an inverse, `sinv` names it.
pub proof fn lemma_sinv(a: Scalar)
    requires
        exists|b: Scalar| is_inverse(a, b),
    ensures
        is_inverse(a, sinv(a)),
{
}

proof fn lemma_inverse_unique(a: nat, b: nat, c: nat)
    requires
        b < order(),
        c < order(),
        (a * b) % order() == 1,
        (a * c) % order() == 1,
    ensures
        b == c,
{
    let q = order() as int;
    let (x, y, z) = (a as int, b as int, c as int);
    // b = b * (a * c) = (a * b) * c = c, modulo q
    vstd::arithmetic::div_mod::lemma_mul_mod_noop_right(y, x * z, q);
    vstd::arithmetic::div_mod::lemma_mul_mod_noop_left(x * y, z, q);
    assert(y * (x * z) == (x * y) * z) by (nonlinear_arith);
    assert(y * 1 == y && 1 * z == z);
    vstd::arithmetic::div_mod::lemma_small_mod(b, order());
    vstd::arithmetic::div_mod::lemma_small_mod(c, order());
}

/// Whether two 32-byte strings are the same.
pub fn bytes_equal(a: &[u8; 32], b: &[u8; 32]) -> (r: bool)
    ensures
        r == (*a == *b),
{
    let mut i: usize = 0;
    while i < 32
        invariant
            i <= 32,
            forall|j: int| 0 <= j < i ==> a@[j] == b@[j],
        decreases 32 - i,
    {
        if a[i] != b[i] {
            assert(a@[i as int] != b@[i as int]);
            return false;
        }
        i += 1;
    }
    assert(*a =~= *b);
    true
}

} // verus!
