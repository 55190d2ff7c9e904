//! The tables over which satisfiability is summed up.
//!
//! A table of rows, copies and instances has the row as its first coordinate,
//! then the copy with its digits reversed, then the instance.
use crate::r1csinstance::all_fit;
use crate::scalar::{sadd, smul, szero, Scalar};
use crate::sparse::{
    compute_eval_table, fits_in, matrices, matrix_product, multiply_vec, vector_product, Entry,
};
use crate::vectors::{dot, dot_of, flat, flatten, mats, repeated, rows};
use vstd::arithmetic::power2::{lemma_pow2_pos, lemma_pow2_unfold, pow2};
use vstd::prelude::*;

verus! {

/// A number with its last `n` binary digits reversed.
pub open spec fn reversed(i: nat, n: nat) -> nat
    decreases n,
{
    if n == 0 {
        0
    } else {
        (i % 2) * pow2((n - 1) as nat) + reversed(i / 2, (n - 1) as nat)
    }
}

/// A reversed number has no more digits.
pub proof fn lemma_reversed_bound(i: nat, n: nat)
    ensures
        reversed(i, n) < pow2(n),
    decreases n,
{
    lemma_pow2_pos(n);
    if n > 0 {
        lemma_reversed_bound(i / 2, (n - 1) as nat);
        lemma_pow2_unfold(n);
        let p = pow2((n - 1) as nat);
        if i % 2 == 0 {
            assert((i % 2) * p == 0) by (nonlinear_arith)
                requires
                    i % 2 == 0,
            ;
        } else {
            assert((i % 2) * p == p) by (nonlinear_arith)
                requires
                    i % 2 == 1,
            ;
        }
    }
}

/// Reverses the last `n` binary digits.
pub fn reverse_digits(i: usize, n: usize) -> (r: usize)
    requires
        pow2(n as nat) <= usize::MAX,
    ensures
        r == reversed(i as nat, n as nat),
    decreases n,
{
    if n == 0 {
        0
    } else {
        proof {
            lemma_pow2_unfold(n as nat);
            lemma_pow2_pos((n - 1) as nat);
            lemma_reversed_bound(i as nat, n as nat);
        }
        let rest = reverse_digits(i / 2, n - 1);
        let p = crate::math::pow_2(n - 1);
        if i % 2 == 1 {
            assert((i as nat % 2) * pow2((n - 1) as nat) == pow2((n - 1) as nat))
                by (nonlinear_arith)
                requires
                    i as nat % 2 == 1,
            ;
            p + rest
        } else {
            assert((i as nat % 2) * pow2((n - 1) as nat) == 0) by (nonlinear_arith)
                requires
                    i as nat % 2 == 0,
            ;
            rest
        }
    }
}

/// The value at a row, a reversed copy and an instance, and zero where the
/// instance has no such copy.
pub open spec fn cube_value(
    cube: Seq<Seq<Seq<Scalar>>>,
    bits: nat,
    x: int,
    q: int,
    p: int,
) -> Scalar {
    let copy = reversed(q as nat, bits);
    if copy < cube[p].len() {
        cube[p][copy as int][x]
    } else {
        szero()
    }
}

/// The values of all instances at a row and a reversed copy.
pub open spec fn cube_line(cube: Seq<Seq<Seq<Scalar>>>, bits: nat, x: int, q: int) -> Seq<Scalar> {
    Seq::new(cube.len(), |p: int| cube_value(cube, bits, x, q, p))
}

/// The lines at a row.
pub open spec fn cube_plane(cube: Seq<Seq<Seq<Scalar>>>, bits: nat, x: int) -> Seq<Seq<Scalar>> {
    Seq::new(pow2(bits), |q: int| cube_line(cube, bits, x, q))
}

/// The table of a cube of `nx` rows.
pub open spec fn cube_table(cube: Seq<Seq<Seq<Scalar>>>, bits: nat, nx: nat) -> Seq<Scalar> {
    flat(Seq::new(nx, |x: int| flat(cube_plane(cube, bits, x))))
}

/// The table of the products of three factors, one for each coordinate.
pub open spec fn factor_table(tp: Seq<Scalar>, tq: Seq<Scalar>, tx: Seq<Scalar>) -> Seq<Scalar> {
    flat(Seq::new(tx.len(), |x: int| flat(factor_plane(tp, tq, tx[x]))))
}

/// The products at a row.
pub open spec fn factor_plane(tp: Seq<Scalar>, tq: Seq<Scalar>, x: Scalar) -> Seq<Seq<Scalar>> {
    Seq::new(tq.len(), |q: int| factor_line(tp, tq[q], x))
}

/// The products at a row and a copy.
pub open spec fn factor_line(tp: Seq<Scalar>, q: Scalar, x: Scalar) -> Seq<Scalar> {
    Seq::new(tp.len(), |p: int| smul(smul(tp[p], q), x))
}

/// Builds the table of a cube.
pub fn table_of(cube: &Vec<Vec<Vec<Scalar>>>, bits: usize, nx: usize) -> (r: Vec<Scalar>)
    requires
        pow2(bits as nat) <= usize::MAX,
        forall|p: int, q: int|
            0 <= p < cube@.len() && 0 <= q < cube@[p]@.len() ==> (#[trigger] cube@[p]@[q])@.len()
                >= nx,
    ensures
        r@ == cube_table(mats(cube@), bits as nat, nx as nat),
{
    let ghost all = mats(cube@);
    let nq = crate::math::pow_2(bits);
    let mut planes: Vec<Vec<Scalar>> = Vec::new();
    let mut x: usize = 0;
    while x < nx
        invariant
            x <= nx,
            nq == pow2(bits as nat),
            pow2(bits as nat) <= usize::MAX,
            all == mats(cube@),
            forall|p: int, q: int|
                0 <= p < cube@.len() && 0 <= q < cube@[p]@.len() ==> (
                #[trigger] cube@[p]@[q])@.len() >= nx,
            planes@.len() == x,
            forall|j: int|
                0 <= j < x ==> (#[trigger] planes@[j])@ == flat(cube_plane(all, bits as nat, j)),
        decreases nx - x,
    {
        let mut lines: Vec<Vec<Scalar>> = Vec::new();
        let mut q: usize = 0;
        while q < nq
            invariant
                x < nx,
                q <= nq,
                nq == pow2(bits as nat),
                pow2(bits as nat) <= usize::MAX,
                all == mats(cube@),
                forall|p: int, q: int|
                    0 <= p < cube@.len() && 0 <= q < cube@[p]@.len() ==> (
                    #[trigger] cube@[p]@[q])@.len() >= nx,
                lines@.len() == q,
                forall|j: int|
                    0 <= j < q ==> (#[trigger] lines@[j])@ == cube_line(
                        all,
                        bits as nat,
                        x as int,
                        j,
                    ),
            decreases nq - q,
        {
            let copy = reverse_digits(q, bits);
            let ghost full = cube_line(all, bits as nat, x as int, q as int);
            let mut line: Vec<Scalar> = Vec::new();
            let mut p: usize = 0;
            while p < cube.len()
                invariant
                    x < nx,
                    p <= cube@.len(),
                    copy == reversed(q as nat, bits as nat),
                    all == mats(cube@),
                    full == cube_line(all, bits as nat, x as int, q as int),
                    forall|p: int, q: int|
                        0 <= p < cube@.len() && 0 <= q < cube@[p]@.len() ==> (
                        #[trigger] cube@[p]@[q])@.len() >= nx,
                    line@ == full.take(p as int),
                decreases cube@.len() - p,
            {
                assert(all[p as int] == rows(cube@[p as int]@));
                let v = if copy < cube[p].len() {
                    assert(cube@[p as int]@[copy as int]@.len() >= nx);
                    cube[p][copy][x]
                } else {
                    Scalar::zero()
                };
                line.push(v);
                p += 1;
                assert(line@ =~= full.take(p as int));
            }
            assert(line@ =~= full);
            lines.push(line);
            q += 1;
        }
        assert(rows(lines@) =~= cube_plane(all, bits as nat, x as int));
        planes.push(flatten(&lines));
        x += 1;
    }
    assert(rows(planes@) =~= Seq::new(nx as nat, |x: int| flat(cube_plane(all, bits as nat, x))));
    flatten(&planes)
}

/// Builds the table of the products of three factors.
pub fn factor_table_of(tp: &Vec<Scalar>, tq: &Vec<Scalar>, tx: &Vec<Scalar>) -> (r: Vec<Scalar>)
    ensures
        r@ == factor_table(tp@, tq@, tx@),
{
    let mut planes: Vec<Vec<Scalar>> = Vec::new();
    let mut x: usize = 0;
    while x < tx.len()
        invariant
            x <= tx@.len(),
            planes@.len() == x,
            forall|j: int|
                0 <= j < x ==> (#[trigger] planes@[j])@ == flat(factor_plane(tp@, tq@, tx@[j])),
        decreases tx@.len() - x,
    {
        let mut lines: Vec<Vec<Scalar>> = Vec::new();
        let mut q: usize = 0;
        while q < tq.len()
            invariant
                x < tx@.len(),
                q <= tq@.len(),
                lines@.len() == q,
                forall|j: int|
                    0 <= j < q ==> (#[trigger] lines@[j])@ == factor_line(
                        tp@,
                        tq@[j],
                        tx@[x as int],
                    ),
            decreases tq@.len() - q,
        {
            let ghost full = factor_line(tp@, tq@[q as int], tx@[x as int]);
            let mut line: Vec<Scalar> = Vec::new();
            let mut p: usize = 0;
            while p < tp.len()
                invariant
                    x < tx@.len(),
                    q < tq@.len(),
                    p <= tp@.len(),
                    full == factor_line(tp@, tq@[q as int], tx@[x as int]),
                    line@ == full.take(p as int),
                decreases tp@.len() - p,
            {
                line.push(tp[p].times(&tq[q]).times(&tx[x]));
                p += 1;
                assert(line@ =~= full.take(p as int));
            }
            assert(line@ =~= full);
            lines.push(line);
            q += 1;
        }
        assert(rows(lines@) =~= factor_plane(tp@, tq@, tx@[x as int]));
        planes.push(flatten(&lines));
        x += 1;
    }
    assert(rows(planes@) =~= Seq::new(tx@.len(), |x: int| flat(factor_plane(tp@, tq@, tx@[x]))));
    flatten(&planes)
}

/// The size of the table of a cube.
pub proof fn lemma_cube_table_len(cube: Seq<Seq<Seq<Scalar>>>, bits: nat, nx: nat)
    ensures
        cube_table(cube, bits, nx).len() == nx * (pow2(bits) * cube.len()),
{
    let planes = Seq::new(nx, |x: int| flat(cube_plane(cube, bits, x)));
    assert forall|x: int| 0 <= x < nx implies (#[trigger] planes[x]).len() == pow2(bits)
        * cube.len() by {
        crate::vectors::lemma_uniform_len(cube_plane(cube, bits, x), cube.len());
    }
    crate::vectors::lemma_uniform_len(planes, pow2(bits) * cube.len());
}

/// The size of the table of the products of three factors.
pub proof fn lemma_factor_table_len(tp: Seq<Scalar>, tq: Seq<Scalar>, tx: Seq<Scalar>)
    ensures
        factor_table(tp, tq, tx).len() == tx.len() * (tq.len() * tp.len()),
{
    let planes = Seq::new(tx.len(), |x: int| flat(factor_plane(tp, tq, tx[x])));
    assert forall|x: int| 0 <= x < tx.len() implies (#[trigger] planes[x]).len() == tq.len()
        * tp.len() by {
        crate::vectors::lemma_uniform_len(factor_plane(tp, tq, tx[x]), tp.len());
    }
    crate::vectors::lemma_uniform_len(planes, tq.len() * tp.len());
}

/// The products of the matrix of each instance with its assignments.
pub open spec fn product_cube(
    m: Seq<Seq<Entry>>,
    num_cons: nat,
    z: Seq<Seq<Seq<Scalar>>>,
) -> Seq<Seq<Seq<Scalar>>> {
    Seq::new(z.len(), |p: int| products_of(m[p], num_cons, z[p]))
}

/// The products of a matrix with assignments.
pub open spec fn products_of(m: Seq<Entry>, num_cons: nat, z: Seq<Seq<Scalar>>) -> Seq<Seq<Scalar>> {
    z.map_values(|v: Seq<Scalar>| matrix_product(m, num_cons, v))
}

/// Multiplies a matrix with assignments.
pub fn multiply_all(m: &Vec<Entry>, num_cons: usize, z: &Vec<Vec<Scalar>>, width: usize) -> (r: Vec<
    Vec<Scalar>,
>)
    requires
        fits_in(m@, num_cons as nat, width as nat),
        crate::witness::all_wide(rows(z@), width as nat),
    ensures
        rows(r@) == products_of(m@, num_cons as nat, rows(z@)),
{
    let mut r: Vec<Vec<Scalar>> = Vec::new();
    let mut q: usize = 0;
    while q < z.len()
        invariant
            q <= z@.len(),
            fits_in(m@, num_cons as nat, width as nat),
            crate::witness::all_wide(rows(z@), width as nat),
            r@.len() == q,
            forall|j: int|
                0 <= j < q ==> (#[trigger] r@[j])@ == matrix_product(m@, num_cons as nat, z@[j]@),
        decreases z@.len() - q,
    {
        assert(rows(z@)[q as int].len() == width);
        r.push(multiply_vec(m, num_cons, &z[q]));
        q += 1;
    }
    assert(rows(r@) =~= products_of(m@, num_cons as nat, rows(z@)));
    r
}

/// The products of the vector of row weights with the matrix of each instance,
/// one after the other.
pub open spec fn column_table(m: Seq<Seq<Entry>>, w: Seq<Scalar>, z_len: nat) -> Seq<Scalar> {
    flat(m.map_values(|x: Seq<Entry>| vector_product(x, w, z_len)))
}

/// Multiplies the row weights with the matrix of each instance.
pub fn column_table_of(m: &Vec<Vec<Entry>>, w: &Vec<Scalar>, z_len: usize) -> (r: Vec<Scalar>)
    requires
        all_fit(matrices(m@), w@.len(), z_len as nat),
    ensures
        r@ == column_table(matrices(m@), w@, z_len as nat),
{
    let ghost all = matrices(m@);
    let mut parts: Vec<Vec<Scalar>> = Vec::new();
    let mut p: usize = 0;
    while p < m.len()
        invariant
            p <= m@.len(),
            all == matrices(m@),
            all_fit(all, w@.len(), z_len as nat),
            parts@.len() == p,
            forall|j: int|
                0 <= j < p ==> (#[trigger] parts@[j])@ == vector_product(all[j], w@, z_len as nat),
        decreases m@.len() - p,
    {
        assert(fits_in(all[p as int], w@.len(), z_len as nat));
        parts.push(compute_eval_table(&m[p], w, z_len));
        p += 1;
    }
    assert(rows(parts@) =~= all.map_values(|x: Seq<Entry>| vector_product(x, w@, z_len as nat)));
    flatten(&parts)
}

/// The weighted sum of three lists.
pub open spec fn weighted_three(
    ra: Scalar,
    rb: Scalar,
    rc: Scalar,
    a: Seq<Scalar>,
    b: Seq<Scalar>,
    c: Seq<Scalar>,
) -> Seq<Scalar> {
    Seq::new(
        a.len(),
        |i: int| sadd(sadd(smul(ra, a[i]), smul(rb, b[i])), smul(rc, c[i])),
    )
}

/// Computes the weighted sum of three lists.
pub fn weigh_three(
    ra: &Scalar,
    rb: &Scalar,
    rc: &Scalar,
    a: &Vec<Scalar>,
    b: &Vec<Scalar>,
    c: &Vec<Scalar>,
) -> (r: Vec<Scalar>)
    requires
        a@.len() == b@.len(),
        a@.len() == c@.len(),
    ensures
        r@ == weighted_three(*ra, *rb, *rc, a@, b@, c@),
{
    let ghost full = weighted_three(*ra, *rb, *rc, a@, b@, c@);
    let mut r: Vec<Scalar> = Vec::new();
    let mut i: usize = 0;
    while i < a.len()
        invariant
            i <= a@.len(),
            a@.len() == b@.len(),
            a@.len() == c@.len(),
            full == weighted_three(*ra, *rb, *rc, a@, b@, c@),
            r@ == full.take(i as int),
        decreases a@.len() - i,
    {
        r.push(ra.times(&a[i]).plus(&rb.times(&b[i])).plus(&rc.times(&c[i])));
        i += 1;
        assert(r@ =~= full.take(i as int));
    }
    assert(r@ =~= full);
    r
}

/// The combination of the copies of an assignment, at one position.
pub open spec fn copies_at(z: Seq<Seq<Scalar>>, eq: Seq<Scalar>, y: int) -> Scalar {
    dot(Seq::new(z.len(), |q: int| z[q][y]), eq)
}

/// The combination of the copies of an assignment.
pub open spec fn copies_bound(z: Seq<Seq<Scalar>>, eq: Seq<Scalar>, z_len: nat) -> Seq<Scalar> {
    Seq::new(z_len, |y: int| copies_at(z, eq, y))
}

/// The combinations of the copies of the assignments of all instances, one
/// after the other.
pub open spec fn all_copies_bound(z: Seq<Seq<Seq<Scalar>>>, eq: Seq<Scalar>, z_len: nat) -> Seq<
    Scalar,
> {
    flat(z.map_values(|m: Seq<Seq<Scalar>>| copies_bound(m, eq, z_len)))
}

/// Combines the copies of an assignment.
pub fn bind_copies(z: &Vec<Vec<Scalar>>, eq: &Vec<Scalar>, z_len: usize) -> (r: Vec<Scalar>)
    requires
        z@.len() <= eq@.len(),
        crate::witness::all_wide(rows(z@), z_len as nat),
    ensures
        r@ == copies_bound(rows(z@), eq@, z_len as nat),
{
    let ghost all = rows(z@);
    let ghost full = copies_bound(all, eq@, z_len as nat);
    let mut r: Vec<Scalar> = Vec::new();
    let mut y: usize = 0;
    while y < z_len
        invariant
            y <= z_len,
            z@.len() <= eq@.len(),
            all == rows(z@),
            crate::witness::all_wide(all, z_len as nat),
            full == copies_bound(all, eq@, z_len as nat),
            r@ == full.take(y as int),
        decreases z_len - y,
    {
        let mut col: Vec<Scalar> = Vec::new();
        let mut q: usize = 0;
        while q < z.len()
            invariant
                y < z_len,
                q <= z@.len(),
                all == rows(z@),
                crate::witness::all_wide(all, z_len as nat),
                col@ == Seq::new(all.len(), |q: int| all[q][y as int]).take(q as int),
            decreases z@.len() - q,
        {
            assert(all[q as int].len() == z_len);
            assert(all[q as int] == z@[q as int]@);
            col.push(z[q][y]);
            q += 1;
            assert(col@ =~= Seq::new(all.len(), |q: int| all[q][y as int]).take(q as int));
        }
        assert(col@ =~= Seq::new(all.len(), |q: int| all[q][y as int]));
        r.push(dot_of(&col, eq));
        y += 1;
        assert(r@ =~= full.take(y as int));
    }
    assert(r@ =~= full);
    r
}

/// Each value of a list, repeated.
pub open spec fn stretched(s: Seq<Scalar>, n: nat) -> Seq<Scalar> {
    flat(s.map_values(|x: Scalar| repeated(x, n)))
}

/// Repeats each value of a list.
pub fn stretch(s: &Vec<Scalar>, n: usize) -> (r: Vec<Scalar>)
    ensures
        r@ == stretched(s@, n as nat),
{
    let mut parts: Vec<Vec<Scalar>> = Vec::new();
    let mut p: usize = 0;
    while p < s.len()
        invariant
            p <= s@.len(),
            parts@.len() == p,
            forall|j: int| 0 <= j < p ==> (#[trigger] parts@[j])@ == repeated(s@[j], n as nat),
        decreases s@.len() - p,
    {
        let part: Vec<Scalar> = vec![s[p]; n];
        assert(part@ =~= repeated(s@[p as int], n as nat));
        parts.push(part);
        p += 1;
    }
    assert(rows(parts@) =~= s@.map_values(|x: Scalar| repeated(x, n as nat)));
    flatten(&parts)
}

} // verus!
