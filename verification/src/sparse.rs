//! Sparse matrices of scalars.
use crate::scalar::{sadd, smul, szero, Scalar};
use crate::vectors::zeros;
use vstd::prelude::*;

verus! {

/// An entry of a matrix: its row, its column and its value.
pub type Entry = (usize, usize, Scalar);

/// The entries of a list of matrices.
pub open spec fn matrices(v: Seq<Vec<Entry>>) -> Seq<Seq<Entry>> {
    v.map_values(|m: Vec<Entry>| m@)
}

/// Whether the entries lie in a matrix of the given size.
pub open spec fn fits_in(m: Seq<Entry>, num_rows: nat, num_cols: nat) -> bool {
    forall|i: int| 0 <= i < m.len() ==> (#[trigger] m[i]).0 < num_rows && m[i].1 < num_cols
}

/// The product of one row with a vector.
pub open spec fn row_product(m: Seq<Entry>, z: Seq<Scalar>, row: int) -> Scalar
    decreases m.len(),
{
    if m.len() == 0 {
        szero()
    } else {
        let rest = row_product(m.drop_last(), z, row);
        let (x, y, v) = m.last();
        if x == row {
            sadd(rest, smul(v, z[y as int]))
        } else {
            rest
        }
    }
}

/// The product of a matrix with a vector.
pub open spec fn matrix_product(m: Seq<Entry>, num_rows: nat, z: Seq<Scalar>) -> Seq<Scalar> {
    Seq::new(num_rows, |x: int| row_product(m, z, x))
}

/// The product of a vector with one column.
pub open spec fn column_product(m: Seq<Entry>, w: Seq<Scalar>, col: int) -> Scalar
    decreases m.len(),
{
    if m.len() == 0 {
        szero()
    } else {
        let rest = column_product(m.drop_last(), w, col);
        let (x, y, v) = m.last();
        if y == col {
            sadd(rest, smul(w[x as int], v))
        } else {
            rest
        }
    }
}

/// The product of a vector with a matrix.
pub open spec fn vector_product(m: Seq<Entry>, w: Seq<Scalar>, num_cols: nat) -> Seq<Scalar> {
    Seq::new(num_cols, |y: int| column_product(m, w, y))
}

/// The value of the matrix between two vectors.
pub open spec fn bilinear(m: Seq<Entry>, w: Seq<Scalar>, z: Seq<Scalar>) -> Scalar
    decreases m.len(),
{
    if m.len() == 0 {
        szero()
    } else {
        let (x, y, v) = m.last();
        sadd(bilinear(m.drop_last(), w, z), smul(smul(w[x as int], z[y as int]), v))
    }
}

/// The product of a matrix with a vector.
pub fn multiply_vec(m: &Vec<Entry>, num_rows: usize, z: &Vec<Scalar>) -> (r: Vec<Scalar>)
    requires
        fits_in(m@, num_rows as nat, z@.len()),
    ensures
        r@ == matrix_product(m@, num_rows as nat, z@),
{
    let mut r = zeros(num_rows);
    let mut i: usize = 0;
    assert(r@ =~= matrix_product(m@.take(0), num_rows as nat, z@));
    while i < m.len()
        invariant
            i <= m@.len(),
            fits_in(m@, num_rows as nat, z@.len()),
            r@.len() == num_rows,
            r@ == matrix_product(m@.take(i as int), num_rows as nat, z@),
        decreases m@.len() - i,
    {
        let (x, y, v) = m[i];
        assert(m@[i as int].0 < num_rows);
        let s = r[x].plus(&v.times(&z[y]));
        r.set(x, s);
        i += 1;
        assert(m@.take(i as int).drop_last() =~= m@.take(i - 1));
        assert(r@ =~= matrix_product(m@.take(i as int), num_rows as nat, z@));
    }
    assert(m@.take(i as int) =~= m@);
    r
}

/// The product of a vector with a matrix.
pub fn compute_eval_table(m: &Vec<Entry>, w: &Vec<Scalar>, num_cols: usize) -> (r: Vec<Scalar>)
    requires
        fits_in(m@, w@.len(), num_cols as nat),
    ensures
        r@ == vector_product(m@, w@, num_cols as nat),
{
    let mut r = zeros(num_cols);
    let mut i: usize = 0;
    assert(r@ =~= vector_product(m@.take(0), w@, num_cols as nat));
    while i < m.len()
        invariant
            i <= m@.len(),
            fits_in(m@, w@.len(), num_cols as nat),
            r@.len() == num_cols,
            r@ == vector_product(m@.take(i as int), w@, num_cols as nat),
        decreases m@.len() - i,
    {
        let (x, y, v) = m[i];
        assert(m@[i as int].0 < w@.len());
        let s = r[y].plus(&w[x].times(&v));
        r.set(y, s);
        i += 1;
        assert(m@.take(i as int).drop_last() =~= m@.take(i - 1));
        assert(r@ =~= vector_product(m@.take(i as int), w@, num_cols as nat));
    }
    assert(m@.take(i as int) =~= m@);
    r
}

/// The value of a matrix between two vectors.
pub fn evaluate_with_tables(m: &Vec<Entry>, w: &Vec<Scalar>, z: &Vec<Scalar>) -> (r: Scalar)
    requires
        fits_in(m@, w@.len(), z@.len()),
    ensures
        r == bilinear(m@, w@, z@),
{
    let mut r = Scalar::zero();
    let mut i: usize = 0;
    while i < m.len()
        invariant
            i <= m@.len(),
            fits_in(m@, w@.len(), z@.len()),
            r == bilinear(m@.take(i as int), w@, z@),
        decreases m@.len() - i,
    {
        let (x, y, v) = m[i];
        assert(m@[i as int].0 < w@.len());
        r = r.plus(&w[x].times(&z[y]).times(&v));
        i += 1;
        assert(m@.take(i as int).drop_last() =~= m@.take(i - 1));
    }
    assert(m@.take(i as int) =~= m@);
    r
}

/// The same entries.
pub fn copy_entries(m: &Vec<Entry>) -> (r: Vec<Entry>)
    ensures
        r@ == m@,
{
    let mut r: Vec<Entry> = Vec::new();
    let mut i: usize = 0;
    while i < m.len()
        invariant
            i <= m@.len(),
            r@ == m@.take(i as int),
        decreases m@.len() - i,
    {
        r.push(m[i]);
        i += 1;
        assert(r@ =~= m@.take(i as int));
    }
    assert(m@.take(i as int) =~= m@);
    r
}

} // verus!
