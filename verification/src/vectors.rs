//! Sums, products and rearrangements of lists of scalars.
use crate::scalar::{lemma_of_view, lemma_sadd_view, sadd, smul, sone, szero, Scalar};
use vstd::prelude::*;

verus! {

/// The sum of a list.
pub open spec fn sum(s: Seq<Scalar>) -> Scalar
    decreases s.len(),
{
    if s.len() == 0 {
        szero()
    } else {
        sadd(sum(s.drop_last()), s.last())
    }
}

/// The product of a list.
pub open spec fn product(s: Seq<Scalar>) -> Scalar
    decreases s.len(),
{
    if s.len() == 0 {
        sone()
    } else {
        smul(product(s.drop_last()), s.last())
    }
}

/// A sum is a reduced scalar.
pub proof fn lemma_sum_canonical(s: Seq<Scalar>)
    ensures
        sum(s).canonical(),
{
    lemma_of_view(0);
    if s.len() > 0 {
        lemma_sadd_view(sum(s.drop_last()), s.last());
    }
}

/// The list of the products of the entries of two lists.
pub open spec fn pointwise(a: Seq<Scalar>, b: Seq<Scalar>) -> Seq<Scalar> {
    Seq::new(a.len(), |i: int| smul(a[i], b[i]))
}

/// The inner product of two lists.
pub open spec fn dot(a: Seq<Scalar>, b: Seq<Scalar>) -> Scalar {
    sum(pointwise(a, b))
}

/// A list of `n` copies.
pub open spec fn repeated(x: Scalar, n: nat) -> Seq<Scalar> {
    Seq::new(n, |i: int| x)
}

/// The concatenation of lists.
pub open spec fn flat(m: Seq<Seq<Scalar>>) -> Seq<Scalar>
    decreases m.len(),
{
    if m.len() == 0 {
        Seq::empty()
    } else {
        flat(m.drop_last()) + m.last()
    }
}

/// The rows of a matrix.
pub open spec fn rows(m: Seq<Vec<Scalar>>) -> Seq<Seq<Scalar>> {
    m.map_values(|v: Vec<Scalar>| v@)
}

/// The matrices of a list.
pub open spec fn mats(m: Seq<Vec<Vec<Scalar>>>) -> Seq<Seq<Seq<Scalar>>> {
    m.map_values(|v: Vec<Vec<Scalar>>| rows(v@))
}

/// Where the lists have one length, the concatenation holds them side by side.
pub proof fn lemma_flat_index(m: Seq<Seq<Scalar>>, width: nat, q: int, j: int)
    requires
        forall|i: int| 0 <= i < m.len() ==> (#[trigger] m[i]).len() == width,
        0 <= q < m.len(),
        0 <= j < width,
    ensures
        flat(m).len() == m.len() * width,
        0 <= q * width + j < flat(m).len(),
        flat(m)[q * width + j] == m[q][j],
    decreases m.len(),
{
    lemma_uniform_len(m, width);
    lemma_uniform_len(m.drop_last(), width);
    let k = m.len() - 1;
    assert(q * width + j < m.len() * width) by (nonlinear_arith)
        requires
            0 <= q < m.len(),
            0 <= j < width,
    ;
    assert(0 <= q * width) by (nonlinear_arith)
        requires
            0 <= q,
            0 <= width,
    ;
    if q < k {
        lemma_flat_index(m.drop_last(), width, q, j);
    }
}

/// The length of a concatenation of lists of one length.
pub proof fn lemma_uniform_len(m: Seq<Seq<Scalar>>, width: nat)
    requires
        forall|i: int| 0 <= i < m.len() ==> (#[trigger] m[i]).len() == width,
    ensures
        flat(m).len() == m.len() * width,
    decreases m.len(),
{
    if m.len() > 0 {
        lemma_uniform_len(m.drop_last(), width);
        assert(m.len() * width == (m.len() - 1) * width + width) by (nonlinear_arith);
    }
}

/// The sum of a list.
pub fn sum_of(s: &Vec<Scalar>) -> (r: Scalar)
    ensures
        r == sum(s@),
{
    let mut r = Scalar::zero();
    let mut i: usize = 0;
    while i < s.len()
        invariant
            i <= s@.len(),
            r == sum(s@.take(i as int)),
        decreases s@.len() - i,
    {
        r = r.plus(&s[i]);
        i += 1;
        assert(s@.take(i as int).drop_last() =~= s@.take(i - 1));
    }
    assert(s@.take(i as int) =~= s@);
    r
}

/// The product of a list.
pub fn product_of(s: &Vec<Scalar>) -> (r: Scalar)
    ensures
        r == product(s@),
{
    let mut r = Scalar::one();
    let mut i: usize = 0;
    while i < s.len()
        invariant
            i <= s@.len(),
            r == product(s@.take(i as int)),
        decreases s@.len() - i,
    {
        r = r.times(&s[i]);
        i += 1;
        assert(s@.take(i as int).drop_last() =~= s@.take(i - 1));
    }
    assert(s@.take(i as int) =~= s@);
    r
}

/// The products of the entries of a list with the first entries of another.
pub fn pointwise_of(a: &Vec<Scalar>, b: &Vec<Scalar>) -> (r: Vec<Scalar>)
    requires
        a@.len() <= b@.len(),
    ensures
        r@ == pointwise(a@, b@),
{
    let mut r: Vec<Scalar> = Vec::new();
    let mut i: usize = 0;
    while i < a.len()
        invariant
            i <= a@.len() <= b@.len(),
            r@ == pointwise(a@, b@).take(i as int),
        decreases a@.len() - i,
    {
        r.push(a[i].times(&b[i]));
        i += 1;
        assert(r@ =~= pointwise(a@, b@).take(i as int));
    }
    assert(pointwise(a@, b@).take(i as int) =~= pointwise(a@, b@));
    r
}

/// The inner product of two lists.
pub fn dot_of(a: &Vec<Scalar>, b: &Vec<Scalar>) -> (r: Scalar)
    requires
        a@.len() <= b@.len(),
    ensures
        r == dot(a@, b@),
{
    let p = pointwise_of(a, b);
    sum_of(&p)
}

/// A list of `n` zeros.
pub fn zeros(n: usize) -> (r: Vec<Scalar>)
    ensures
        r@ == repeated(szero(), n as nat),
{
    let r: Vec<Scalar> = vec![Scalar::zero(); n];
    assert(r@ =~= repeated(szero(), n as nat));
    r
}

/// The concatenation of the rows of a matrix.
pub fn flatten(m: &Vec<Vec<Scalar>>) -> (r: Vec<Scalar>)
    ensures
        r@ == flat(rows(m@)),
{
    let mut r: Vec<Scalar> = Vec::new();
    let mut i: usize = 0;
    while i < m.len()
        invariant
            i <= m@.len(),
            r@ == flat(rows(m@).take(i as int)),
        decreases m@.len() - i,
    {
        append_all(&mut r, &m[i]);
        i += 1;
        assert(rows(m@).take(i as int).drop_last() =~= rows(m@).take(i - 1));
    }
    assert(rows(m@).take(i as int) =~= rows(m@));
    r
}

/// Appends a list to another.
pub fn append_all(r: &mut Vec<Scalar>, v: &Vec<Scalar>)
    ensures
        final(r)@ == old(r)@ + v@,
{
    let ghost before = r@;
    let mut i: usize = 0;
    while i < v.len()
        invariant
            i <= v@.len(),
            r@ == before + v@.take(i as int),
        decreases v@.len() - i,
    {
        r.push(v[i]);
        i += 1;
        assert(r@ =~= before + v@.take(i as int));
    }
    assert(v@.take(i as int) =~= v@);
}

/// Two lists, one after the other.
pub fn concat(a: &Vec<Scalar>, b: &Vec<Scalar>) -> (r: Vec<Scalar>)
    ensures
        r@ == a@ + b@,
{
    let mut r: Vec<Scalar> = Vec::new();
    append_all(&mut r, a);
    append_all(&mut r, b);
    assert(r@ =~= a@ + b@);
    r
}

/// The entries of a list from one position up to another.
pub fn part(v: &Vec<Scalar>, from: usize, to: usize) -> (r: Vec<Scalar>)
    requires
        from <= to <= v@.len(),
    ensures
        r@ == v@.subrange(from as int, to as int),
{
    let mut r: Vec<Scalar> = Vec::new();
    let mut i: usize = from;
    while i < to
        invariant
            from <= i <= to <= v@.len(),
            r@ == v@.subrange(from as int, i as int),
        decreases to - i,
    {
        r.push(v[i]);
        i += 1;
        assert(r@ =~= v@.subrange(from as int, i as int));
    }
    r
}

/// A list with the same entries.
pub fn copy_of(v: &Vec<Scalar>) -> (r: Vec<Scalar>)
    ensures
        r@ == v@,
{
    let r = part(v, 0, v.len());
    assert(r@ =~= v@);
    r
}

} // verus!
