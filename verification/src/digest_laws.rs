//! The hash of an instance is that of bytes which determine the instance.
use crate::binding_laws::lemma_le_bytes;
use crate::r1csinstance::{
    entries_bytes, entry_bytes, instance_bytes, le_bytes, list_bytes, matrices_bytes, R1CS,
};
use crate::reading_laws::law_number_bytes;
use crate::scalar::{le_value, lemma_encoding, lemma_encoding_injective};
use crate::sparse::Entry;
use crate::sparse_mlpoly::lemma_le_bytes_len;
use vstd::arithmetic::power2::{lemma2_to64, pow2};
use vstd::prelude::*;

verus! {

/// Byte strings whose fronts have one length and that are the same have the same
/// fronts and the same rests.
proof fn lemma_split(a: Seq<u8>, x: Seq<u8>, b: Seq<u8>, y: Seq<u8>)
    requires
        a + x == b + y,
        a.len() == b.len(),
    ensures
        a == b,
        x == y,
{
    let (s, t) = (a + x, b + y);
    assert(a =~= s.take(a.len() as int));
    assert(b =~= t.take(b.len() as int));
    assert(x =~= s.skip(a.len() as int));
    assert(y =~= t.skip(b.len() as int));
}

proof fn lemma_number(m: nat, x: Seq<u8>, n: nat, y: Seq<u8>)
    requires
        le_bytes(m, 8) + x == le_bytes(n, 8) + y,
        m < pow2(64),
        n < pow2(64),
    ensures
        m == n,
        x == y,
{
    lemma_le_bytes_len(m, 8);
    lemma_le_bytes_len(n, 8);
    lemma_split(le_bytes(m, 8), x, le_bytes(n, 8), y);
    lemma_le_bytes(m, n, 8);
}

proof fn lemma_entry(e: Entry, x: Seq<u8>, f: Entry, y: Seq<u8>)
    requires
        entry_bytes(e) + x == entry_bytes(f) + y,
    ensures
        e == f,
        x == y,
{
    vstd::arithmetic::power2::lemma2_to64();
    lemma_encoding(e.2);
    lemma_encoding(f.2);
    let (a, b) = (e.2.encoding(), f.2.encoding());
    assert(entry_bytes(e) + x =~= le_bytes(e.0 as nat, 8) + (le_bytes(e.1 as nat, 8) + (a + x)));
    assert(entry_bytes(f) + y =~= le_bytes(f.0 as nat, 8) + (le_bytes(f.1 as nat, 8) + (b + y)));
    lemma_number(
        e.0 as nat,
        le_bytes(e.1 as nat, 8) + (a + x),
        f.0 as nat,
        le_bytes(f.1 as nat, 8) + (b + y),
    );
    lemma_number(e.1 as nat, a + x, f.1 as nat, b + y);
    lemma_split(a, x, b, y);
    lemma_encoding_injective(e.2, f.2);
}

proof fn lemma_entries(m: Seq<Entry>, x: Seq<u8>, n: Seq<Entry>, y: Seq<u8>, k: nat)
    requires
        entries_bytes(m, k) + x == entries_bytes(n, k) + y,
        k <= m.len(),
        k <= n.len(),
    ensures
        forall|i: int| 0 <= i < k ==> #[trigger] m[i] == n[i],
        x == y,
    decreases k,
{
    if k > 0 {
        let p = (k - 1) as nat;
        let (a, b) = (entry_bytes(m[k - 1]), entry_bytes(n[k - 1]));
        assert(entries_bytes(m, k) + x =~= entries_bytes(m, p) + (a + x));
        assert(entries_bytes(n, k) + y =~= entries_bytes(n, p) + (b + y));
        lemma_entries(m, a + x, n, b + y, p);
        lemma_entry(m[k - 1], x, n[k - 1], y);
    } else {
        assert(entries_bytes(m, 0) + x =~= x);
        assert(entries_bytes(n, 0) + y =~= y);
    }
}

proof fn lemma_matrices(l: Seq<Seq<Entry>>, x: Seq<u8>, m: Seq<Seq<Entry>>, y: Seq<u8>, k: nat)
    requires
        matrices_bytes(l, k) + x == matrices_bytes(m, k) + y,
        k <= l.len(),
        k <= m.len(),
        countable(l),
        countable(m),
    ensures
        forall|i: int| 0 <= i < k ==> #[trigger] l[i] == m[i],
        x == y,
    decreases k,
{
    if k > 0 {
        let p = (k - 1) as nat;
        let (a, b) = (l[k - 1], m[k - 1]);
        assert(a.len() < pow2(64) && b.len() < pow2(64));
        let (ea, eb) = (entries_bytes(a, a.len()), entries_bytes(b, b.len()));
        let (u, v) = (le_bytes(a.len(), 8) + (ea + x), le_bytes(b.len(), 8) + (eb + y));
        assert(matrices_bytes(l, k) + x =~= matrices_bytes(l, p) + u);
        assert(matrices_bytes(m, k) + y =~= matrices_bytes(m, p) + v);
        lemma_matrices(l, u, m, v, p);
        lemma_number(a.len(), ea + x, b.len(), eb + y);
        lemma_entries(a, x, b, y, a.len());
        assert(a =~= b);
    } else {
        assert(matrices_bytes(l, 0) + x =~= x);
        assert(matrices_bytes(m, 0) + y =~= y);
    }
}

/// Whether the numbers of matrices and of their entries are machine numbers.
pub open spec fn countable(l: Seq<Seq<Entry>>) -> bool {
    &&& l.len() < pow2(64)
    &&& forall|p: int| 0 <= p < l.len() ==> (#[trigger] l[p]).len() < pow2(64)
}

proof fn lemma_lists(l: Seq<Seq<Entry>>, x: Seq<u8>, m: Seq<Seq<Entry>>, y: Seq<u8>)
    requires
        list_bytes(l) + x == list_bytes(m) + y,
        countable(l),
        countable(m),
    ensures
        l == m,
        x == y,
{
    let (a, b) = (matrices_bytes(l, l.len()), matrices_bytes(m, m.len()));
    assert(list_bytes(l) + x =~= le_bytes(l.len(), 8) + (a + x));
    assert(list_bytes(m) + y =~= le_bytes(m.len(), 8) + (b + y));
    lemma_number(l.len(), a + x, m.len(), b + y);
    lemma_matrices(l, x, m, y, l.len());
    assert(l =~= m);
}

/// Whether the sizes of an instance are machine numbers.
pub open spec fn machine_instance(i: R1CS) -> bool {
    &&& i.num_instances < pow2(64)
    &&& i.num_cons < pow2(64)
    &&& i.num_vars < pow2(64)
    &&& countable(i.a)
    &&& countable(i.b)
    &&& countable(i.c)
}

/// The bytes that are hashed for an instance determine its sizes and all entries
/// of its three lists of matrices.
pub proof fn law_digest_binds(i: R1CS, j: R1CS)
    requires
        machine_instance(i),
        machine_instance(j),
        instance_bytes(i) == instance_bytes(j),
    ensures
        i == j,
{
    let e = Seq::<u8>::empty();
    let (c, d) = (list_bytes(i.c) + e, list_bytes(j.c) + e);
    let (b2, b3) = (list_bytes(i.b) + c, list_bytes(j.b) + d);
    let (a2, a3) = (list_bytes(i.a) + b2, list_bytes(j.a) + b3);
    let (v2, v3) = (le_bytes(i.num_vars, 8) + a2, le_bytes(j.num_vars, 8) + a3);
    let (n2, n3) = (le_bytes(i.num_cons, 8) + v2, le_bytes(j.num_cons, 8) + v3);
    assert(instance_bytes(i) =~= le_bytes(i.num_instances, 8) + n2);
    assert(instance_bytes(j) =~= le_bytes(j.num_instances, 8) + n3);
    lemma_number(i.num_instances, n2, j.num_instances, n3);
    lemma_number(i.num_cons, v2, j.num_cons, v3);
    lemma_number(i.num_vars, a2, j.num_vars, a3);
    lemma_lists(i.a, b2, j.a, b3);
    lemma_lists(i.b, c, j.b, d);
    lemma_lists(i.c, e, j.c, e);
}

/// An entry takes 48 bytes: eight for its row, eight for its column, both least
/// significant byte first, and the encoding of its value.
pub proof fn law_entry_layout(e: Entry)
    ensures
        ({
            let b = entry_bytes(e);
            &&& b.len() == 48
            &&& le_value(b.subrange(0, 8)) == e.0
            &&& le_value(b.subrange(8, 16)) == e.1
            &&& b.subrange(16, 48) == e.2.encoding()
            &&& le_value(b.subrange(16, 48)) == e.2@
        }),
{
    let b = entry_bytes(e);
    lemma2_to64();
    law_number_bytes(e.0 as nat, 8);
    law_number_bytes(e.1 as nat, 8);
    lemma_encoding(e.2);
    assert(b.subrange(0, 8) =~= le_bytes(e.0 as nat, 8));
    assert(b.subrange(8, 16) =~= le_bytes(e.1 as nat, 8));
    assert(b.subrange(16, 48) =~= e.2.encoding());
}

proof fn lemma_parts(x: Seq<u8>, e: Seq<u8>)
    ensures
        (x + e).len() == x.len() + e.len(),
        (x + e).subrange(x.len() as int, (x.len() + e.len()) as int) == e,
{
    assert((x + e).subrange(x.len() as int, (x.len() + e.len()) as int) =~= e);
}

proof fn lemma_within(x: Seq<u8>, e: Seq<u8>, i: int, j: int)
    requires
        0 <= i <= j <= x.len(),
    ensures
        (x + e).subrange(i, j) == x.subrange(i, j),
{
    assert((x + e).subrange(i, j) =~= x.subrange(i, j));
}

/// The entries of a matrix stand in order.
pub proof fn law_entries_layout(m: Seq<Entry>, k: nat, j: int)
    requires
        0 <= j < k <= m.len(),
    ensures
        entries_bytes(m, k).len() == 48 * k,
        entries_bytes(m, k).subrange(48 * j, 48 * j + 48) == entry_bytes(m[j]),
    decreases k,
{
    let p = (k - 1) as nat;
    let (x, e) = (entries_bytes(m, p), entry_bytes(m[k - 1]));
    law_entry_layout(m[k - 1]);
    if p > 0 {
        law_entries_layout(m, p, 0);
    } else {
        assert(x =~= Seq::empty());
    }
    assert(entries_bytes(m, k) == x + e);
    lemma_parts(x, e);
    if j < p {
        law_entries_layout(m, p, j);
        lemma_within(x, e, 48 * j, 48 * j + 48);
    } else {
        assert(48 * j == x.len());
    }
}

/// The bytes of an instance start with the numbers of instances, constraints and
/// values. Then follow the left factors, the right ones and the products, each
/// list and each of its matrices after a count of eight bytes.
pub proof fn law_instance_layout(i: R1CS, k: nat)
    requires
        machine_instance(i),
    ensures
        ({
            let b = instance_bytes(i);
            &&& b.len() >= 32
            &&& le_value(b.subrange(0, 8)) == i.num_instances
            &&& le_value(b.subrange(8, 16)) == i.num_cons
            &&& le_value(b.subrange(16, 24)) == i.num_vars
            &&& le_value(b.subrange(24, 32)) == i.a.len()
            &&& b.skip(24) == list_bytes(i.a) + list_bytes(i.b) + list_bytes(i.c)
        }),
        list_bytes(i.a).skip(8) == matrices_bytes(i.a, i.a.len()),
        matrices_bytes(i.a, 0).len() == 0,
        k < i.a.len() ==> ({
            let (x, y) = (matrices_bytes(i.a, k), matrices_bytes(i.a, k + 1));
            let n = x.len() as int;
            &&& y.len() >= n + 8
            &&& y.take(n) == x
            &&& le_value(y.subrange(n, n + 8)) == i.a[k as int].len()
            &&& y.skip(n + 8) == entries_bytes(i.a[k as int], i.a[k as int].len())
        }),
{
    let b = instance_bytes(i);
    law_number_bytes(i.num_instances, 8);
    law_number_bytes(i.num_cons, 8);
    law_number_bytes(i.num_vars, 8);
    law_number_bytes(i.a.len(), 8);
    assert(b.subrange(0, 8) =~= le_bytes(i.num_instances, 8));
    assert(b.subrange(8, 16) =~= le_bytes(i.num_cons, 8));
    assert(b.subrange(16, 24) =~= le_bytes(i.num_vars, 8));
    assert(b.subrange(24, 32) =~= le_bytes(i.a.len(), 8));
    assert(b.skip(24) =~= list_bytes(i.a) + list_bytes(i.b) + list_bytes(i.c));
    assert(list_bytes(i.a).skip(8) =~= matrices_bytes(i.a, i.a.len()));
    if k < i.a.len() {
        let m = i.a[k as int];
        law_number_bytes(m.len(), 8);
        let (x, y) = (matrices_bytes(i.a, k), matrices_bytes(i.a, k + 1));
        let n = x.len() as int;
        assert(y.take(n) =~= x);
        assert(y.subrange(n, n + 8) =~= le_bytes(m.len(), 8));
        assert(y.skip(n + 8) =~= entries_bytes(m, m.len()));
    }
}

} // verus!
