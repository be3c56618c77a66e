//! The files that go on the disc, and the order they are listed in: in
//! every directory the subdirectories first, then the files, each group by
//! the bytes of their names.

use vstd::prelude::*;
use vstd::utf8::encode_utf8;

verus! {

/// Byte strings in lexicographic order: the first differing byte decides,
/// and a proper prefix comes first.
pub open spec fn bytes_lt(a: Seq<u8>, b: Seq<u8>) -> bool
    decreases a.len(),
{
    if a.len() == 0 {
        b.len() > 0
    } else if b.len() == 0 {
        false
    } else if a[0] != b[0] {
        a[0] < b[0]
    } else {
        bytes_lt(a.drop_first(), b.drop_first())
    }
}

/// The first differing byte decides: after a common prefix, the string
/// with the smaller byte comes first, whatever follows.
pub proof fn lemma_bytes_lt_first_difference(p: Seq<u8>, c: u8, d: u8, x: Seq<u8>, y: Seq<u8>)
    requires
        c < d,
    ensures
        bytes_lt(p + seq![c] + x, p + seq![d] + y),
    decreases p.len(),
{
    let (a, b) = (p + seq![c] + x, p + seq![d] + y);
    if p.len() == 0 {
        assert(a[0] == c && b[0] == d);
    } else {
        assert(a[0] == p[0] && b[0] == p[0]);
        assert(a.drop_first() =~= p.drop_first() + seq![c] + x);
        assert(b.drop_first() =~= p.drop_first() + seq![d] + y);
        lemma_bytes_lt_first_difference(p.drop_first(), c, d, x, y);
    }
}

/// A proper prefix comes before the longer string.
pub proof fn lemma_bytes_lt_prefix(p: Seq<u8>, x: Seq<u8>)
    requires
        x.len() > 0,
    ensures
        bytes_lt(p, p + x),
    decreases p.len(),
{
    if p.len() > 0 {
        assert((p + x)[0] == p[0]);
        assert((p + x).drop_first() =~= p.drop_first() + x);
        lemma_bytes_lt_prefix(p.drop_first(), x);
    }
}

/// No byte string comes before itself.
pub proof fn lemma_bytes_lt_irreflexive(a: Seq<u8>)
    ensures
        !bytes_lt(a, a),
    decreases a.len(),
{
    if a.len() > 0 {
        lemma_bytes_lt_irreflexive(a.drop_first());
    }
}

/// Of two byte strings at most one comes before the other.
pub proof fn lemma_bytes_lt_asymmetric(a: Seq<u8>, b: Seq<u8>)
    requires
        bytes_lt(a, b),
    ensures
        !bytes_lt(b, a),
    decreases a.len(),
{
    if a.len() > 0 && b.len() > 0 && a[0] == b[0] {
        lemma_bytes_lt_asymmetric(a.drop_first(), b.drop_first());
    }
}

/// The lexicographic order is transitive.
pub proof fn lemma_bytes_lt_transitive(a: Seq<u8>, b: Seq<u8>, c: Seq<u8>)
    requires
        bytes_lt(a, b),
        bytes_lt(b, c),
    ensures
        bytes_lt(a, c),
    decreases a.len(),
{
    if a.len() > 0 && b.len() > 0 && c.len() > 0 && a[0] == b[0] && b[0] == c[0] {
        lemma_bytes_lt_transitive(a.drop_first(), b.drop_first(), c.drop_first());
    }
}

/// Of two different byte strings one comes before the other.
pub proof fn lemma_bytes_lt_total(a: Seq<u8>, b: Seq<u8>)
    requires
        a != b,
    ensures
        bytes_lt(a, b) || bytes_lt(b, a),
    decreases a.len(),
{
    if a.len() == 0 && b.len() == 0 {
        assert(a =~= b);
    } else if a.len() > 0 && b.len() > 0 && a[0] == b[0] {
        if a.drop_first() == b.drop_first() {
            assert(a =~= seq![a[0]] + a.drop_first());
            assert(b =~= seq![b[0]] + b.drop_first());
        }
        lemma_bytes_lt_total(a.drop_first(), b.drop_first());
    }
}

/// Compares two byte strings in lexicographic order.
pub fn bytes_less(a: &[u8], b: &[u8]) -> (r: bool)
    ensures
        r == bytes_lt(a@, b@),
{
    let mut i: usize = 0;
    assert(a@.skip(0) =~= a@);
    assert(b@.skip(0) =~= b@);
    while i < a.len() && i < b.len()
        invariant
            i <= a.len(),
            i <= b.len(),
            bytes_lt(a@, b@) == bytes_lt(a@.skip(i as int), b@.skip(i as int)),
        decreases a.len() - i,
    {
        proof {
            assert(a@.skip(i as int)[0] == a@[i as int]);
            assert(b@.skip(i as int)[0] == b@[i as int]);
        }
        if a[i] != b[i] {
            return a[i] < b[i];
        }
        proof {
            assert(a@.skip(i as int).drop_first() =~= a@.skip(i + 1));
            assert(b@.skip(i as int).drop_first() =~= b@.skip(i + 1));
        }
        i = i + 1;
    }
    i < b.len()
}

/// A file or a directory to put on the disc.
pub struct AssetEntry {
    /// Its file name.
    pub name: String,
    /// Its path on the host.
    pub source: String,
    /// Whether it is a directory.
    pub is_dir: bool,
    /// The entries of a directory, in any order; none for a file.
    pub children: Vec<AssetEntry>,
}

/// The bytes of an entry's name, by which entries are ordered.
pub open spec fn name_bytes(e: AssetEntry) -> Seq<u8> {
    encode_utf8(e.name@)
}

/// Entry `i` is listed before entry `j`: a directory before a file; among
/// directories, and among files, by the bytes of the name; entries that
/// agree on both keep their given order.
pub open spec fn listed_before(entries: Seq<AssetEntry>, i: int, j: int) -> bool {
    let a = entries[i];
    let b = entries[j];
    if a.is_dir != b.is_dir {
        a.is_dir
    } else if name_bytes(a) != name_bytes(b) {
        bytes_lt(name_bytes(a), name_bytes(b))
    } else {
        i < j
    }
}

/// Of two entries at most one is listed before the other.
pub proof fn lemma_listed_before_asymmetric(entries: Seq<AssetEntry>, i: int, j: int)
    requires
        listed_before(entries, i, j),
    ensures
        !listed_before(entries, j, i),
{
    let (a, b) = (entries[i], entries[j]);
    if a.is_dir == b.is_dir && name_bytes(a) != name_bytes(b) {
        lemma_bytes_lt_asymmetric(name_bytes(a), name_bytes(b));
    }
}

/// Of two different entries one is listed before the other.
pub proof fn lemma_listed_before_total(entries: Seq<AssetEntry>, i: int, j: int)
    requires
        i != j,
    ensures
        listed_before(entries, i, j) || listed_before(entries, j, i),
{
    let (a, b) = (entries[i], entries[j]);
    if a.is_dir == b.is_dir && name_bytes(a) != name_bytes(b) {
        lemma_bytes_lt_total(name_bytes(a), name_bytes(b));
    }
}

/// Listing before is transitive.
pub proof fn lemma_listed_before_transitive(entries: Seq<AssetEntry>, i: int, j: int, k: int)
    requires
        listed_before(entries, i, j),
        listed_before(entries, j, k),
    ensures
        listed_before(entries, i, k),
{
    let (na, nb, nc) = (name_bytes(entries[i]), name_bytes(entries[j]), name_bytes(entries[k]));
    if bytes_lt(na, nb) && bytes_lt(nb, nc) {
        lemma_bytes_lt_transitive(na, nb, nc);
    }
    lemma_bytes_lt_irreflexive(na);
    lemma_bytes_lt_irreflexive(nb);
    if bytes_lt(na, nb) && nb == nc {
        assert(bytes_lt(na, nc));
    }
    if na == nb && bytes_lt(nb, nc) {
        assert(bytes_lt(na, nc));
    }
    if bytes_lt(na, nb) && bytes_lt(nb, nc) {
        assert(na != nc);
    }
}

/// `order` lists every entry exactly once (by position), each entry before
/// every entry it is listed before.
pub open spec fn is_listing_order(entries: Seq<AssetEntry>, order: Seq<int>) -> bool {
    &&& order.len() == entries.len()
    &&& forall|k: int| 0 <= k < order.len() ==> 0 <= #[trigger] order[k] < entries.len()
    &&& forall|i: int| 0 <= i < entries.len() ==> #[trigger] order.contains(i)
    &&& forall|k: int, l: int|
        0 <= k < l < order.len() ==> listed_before(entries, #[trigger] order[k], #[trigger] order[l])
}

/// The order in which the entries of a directory are listed.
pub open spec fn listing_order(entries: Seq<AssetEntry>) -> Seq<int> {
    choose|order: Seq<int>| is_listing_order(entries, order)
}

proof fn lemma_sorted_unique(entries: Seq<AssetEntry>, p: Seq<int>, q: Seq<int>)
    requires
        p.len() == q.len(),
        forall|k: int| 0 <= k < p.len() ==> 0 <= #[trigger] p[k] < entries.len(),
        forall|k: int| 0 <= k < q.len() ==> 0 <= #[trigger] q[k] < entries.len(),
        forall|x: int| p.contains(x) <==> q.contains(x),
        forall|k: int, l: int| 0 <= k < l < p.len() ==> listed_before(entries, #[trigger] p[k], #[trigger] p[l]),
        forall|k: int, l: int| 0 <= k < l < q.len() ==> listed_before(entries, #[trigger] q[k], #[trigger] q[l]),
    ensures
        p == q,
    decreases p.len(),
{
    if p.len() == 0 {
        assert(p =~= q);
    } else {
        assert(p.contains(p[0]));
        assert(q.contains(q[0]));
        let k = choose|k: int| 0 <= k < q.len() && q[k] == p[0];
        let m = choose|m: int| 0 <= m < p.len() && p[m] == q[0];
        if k > 0 && m > 0 {
            assert(listed_before(entries, q[0], q[k]));
            assert(listed_before(entries, p[0], p[m]));
            lemma_listed_before_asymmetric(entries, q[0], p[0]);
        }
        assert(p[0] == q[0]);
        let (p1, q1) = (p.drop_first(), q.drop_first());
        assert forall|x: int| p1.contains(x) <==> q1.contains(x) by {
            if p1.contains(x) {
                let a = choose|a: int| 0 <= a < p1.len() && p1[a] == x;
                assert(listed_before(entries, p[0], p[a + 1]));
                assert(x != p[0]);
                assert(p.contains(x));
                let b = choose|b: int| 0 <= b < q.len() && q[b] == x;
                assert(b != 0);
                assert(q1[b - 1] == x);
            }
            if q1.contains(x) {
                let a = choose|a: int| 0 <= a < q1.len() && q1[a] == x;
                assert(listed_before(entries, q[0], q[a + 1]));
                assert(x != q[0]);
                assert(q.contains(x));
                let b = choose|b: int| 0 <= b < p.len() && p[b] == x;
                assert(b != 0);
                assert(p1[b - 1] == x);
            }
        }
        assert forall|a: int, b: int| 0 <= a < b < p1.len() implies listed_before(entries, #[trigger] p1[a], #[trigger] p1[b]) by {
            assert(listed_before(entries, p[a + 1], p[b + 1]));
        }
        assert forall|a: int, b: int| 0 <= a < b < q1.len() implies listed_before(entries, #[trigger] q1[a], #[trigger] q1[b]) by {
            assert(listed_before(entries, q[a + 1], q[b + 1]));
        }
        assert forall|a: int| 0 <= a < p1.len() implies 0 <= #[trigger] p1[a] < entries.len() by {
            assert(p1[a] == p[a + 1]);
        }
        assert forall|a: int| 0 <= a < q1.len() implies 0 <= #[trigger] q1[a] < entries.len() by {
            assert(q1[a] == q[a + 1]);
        }
        lemma_sorted_unique(entries, p1, q1);
        assert(p =~= seq![p[0]] + p1);
        assert(q =~= seq![q[0]] + q1);
    }
}

/// The listing order of a directory is determined: any order that lists
/// every entry once, each before those it is listed before, is the
/// listing order.
pub proof fn lemma_listing_order_unique(entries: Seq<AssetEntry>, order: Seq<int>)
    requires
        is_listing_order(entries, order),
    ensures
        listing_order(entries) == order,
        is_listing_order(entries, listing_order(entries)),
{
    let chosen = listing_order(entries);
    assert(is_listing_order(entries, chosen));
    assert forall|x: int| chosen.contains(x) <==> order.contains(x) by {
        if chosen.contains(x) {
            let a = choose|a: int| 0 <= a < chosen.len() && chosen[a] == x;
            assert(0 <= chosen[a] < entries.len());
        }
        if order.contains(x) {
            let a = choose|a: int| 0 <= a < order.len() && order[a] == x;
            assert(0 <= order[a] < entries.len());
        }
    }
    lemma_sorted_unique(entries, chosen, order);
}

/// The first position at or after `k` in `order` holding an entry that
/// entry `x` is listed before; the length of `order` when there is none.
pub open spec fn insertion_point(entries: Seq<AssetEntry>, order: Seq<int>, x: int, k: int) -> int
    decreases order.len() - k,
{
    if k >= order.len() {
        order.len() as int
    } else if listed_before(entries, x, order[k]) {
        k
    } else {
        insertion_point(entries, order, x, k + 1)
    }
}

proof fn lemma_insertion_point(entries: Seq<AssetEntry>, order: Seq<int>, x: int, k: int)
    requires
        0 <= k <= order.len(),
    ensures
        k <= insertion_point(entries, order, x, k) <= order.len(),
        forall|j: int| k <= j < insertion_point(entries, order, x, k) ==> !listed_before(entries, x, #[trigger] order[j]),
        insertion_point(entries, order, x, k) < order.len()
            ==> listed_before(entries, x, order[insertion_point(entries, order, x, k)]),
    decreases order.len() - k,
{
    if k < order.len() && !listed_before(entries, x, order[k]) {
        lemma_insertion_point(entries, order, x, k + 1);
    }
}

/// Every directory has a listing order: `listing_order` lists every entry
/// once, each before the entries it is listed before.
pub proof fn lemma_listing_order_exists(entries: Seq<AssetEntry>)
    ensures
        is_listing_order(entries, listing_order(entries)),
    decreases entries.len(),
{
    if entries.len() == 0 {
        assert(is_listing_order(entries, Seq::<int>::empty()));
    } else {
        let n = entries.len() - 1;
        let init = entries.drop_last();
        lemma_listing_order_exists(init);
        let p = listing_order(init);
        assert forall|i: int, j: int| 0 <= i < n && 0 <= j < n implies
            listed_before(init, i, j) == listed_before(entries, i, j) by {
            assert(init[i] == entries[i] && init[j] == entries[j]);
        }
        lemma_insertion_point(entries, p, n, 0);
        let pos = insertion_point(entries, p, n, 0);
        let q = p.insert(pos, n);
        assert forall|k: int| 0 <= k < q.len() implies 0 <= #[trigger] q[k] < entries.len() by {
            if k < pos {
                assert(q[k] == p[k]);
            } else if k > pos {
                assert(q[k] == p[k - 1]);
            }
        }
        assert forall|i: int| 0 <= i < entries.len() implies #[trigger] q.contains(i) by {
            if i == n {
                assert(q[pos] == n);
            } else {
                assert(p.contains(i));
                let a = choose|a: int| 0 <= a < p.len() && p[a] == i;
                if a < pos {
                    assert(q[a] == i);
                } else {
                    assert(q[a + 1] == i);
                }
            }
        }
        assert forall|k: int, l: int| 0 <= k < l < q.len() implies listed_before(entries, #[trigger] q[k], #[trigger] q[l]) by {
            if l < pos {
                assert(q[k] == p[k] && q[l] == p[l]);
                assert(listed_before(init, p[k], p[l]));
            } else if l == pos {
                assert(q[k] == p[k]);
                assert(!listed_before(entries, n, p[k]));
                lemma_listed_before_total(entries, n, p[k]);
            } else if k > pos {
                assert(q[k] == p[k - 1] && q[l] == p[l - 1]);
                assert(listed_before(init, p[k - 1], p[l - 1]));
            } else if k == pos {
                assert(q[l] == p[l - 1]);
                if l - 1 > pos {
                    assert(listed_before(init, p[pos], p[l - 1]));
                    lemma_listed_before_transitive(entries, n, p[pos], p[l - 1]);
                }
            } else {
                assert(q[k] == p[k] && q[l] == p[l - 1]);
                assert(!listed_before(entries, n, p[k]));
                lemma_listed_before_total(entries, n, p[k]);
                lemma_listed_before_transitive(entries, p[k], n, p[pos]);
                if l - 1 > pos {
                    assert(listed_before(init, p[pos], p[l - 1]));
                    lemma_listed_before_transitive(entries, p[k], p[pos], p[l - 1]);
                }
            }
        }
        assert(is_listing_order(entries, q));
    }
}

/// In a directory's listing every subdirectory comes before every file.
pub proof fn lemma_directories_before_files(entries: Seq<AssetEntry>, k: int, l: int)
    requires
        0 <= k < entries.len(),
        0 <= l < entries.len(),
        entries[listing_order(entries)[k]].is_dir,
        !entries[listing_order(entries)[l]].is_dir,
    ensures
        k < l,
{
    lemma_listing_order_exists(entries);
    let order = listing_order(entries);
    if l < k {
        assert(listed_before(entries, order[l], order[k]));
    }
}

/// In a directory's listing the subdirectories, and the files, come in
/// ascending order of the bytes of their names.
pub proof fn lemma_names_ascend(entries: Seq<AssetEntry>, k: int, l: int)
    requires
        0 <= k < l < entries.len(),
        entries[listing_order(entries)[k]].is_dir == entries[listing_order(entries)[l]].is_dir,
    ensures
        !bytes_lt(
            name_bytes(entries[listing_order(entries)[l]]),
            name_bytes(entries[listing_order(entries)[k]]),
        ),
{
    lemma_listing_order_exists(entries);
    let order = listing_order(entries);
    let (a, b) = (name_bytes(entries[order[k]]), name_bytes(entries[order[l]]));
    assert(listed_before(entries, order[k], order[l]));
    lemma_bytes_lt_irreflexive(a);
    if a != b {
        lemma_bytes_lt_asymmetric(a, b);
    }
}

/// Whether entry `i` is listed before entry `j`.
pub fn is_listed_before(entries: &Vec<AssetEntry>, i: usize, j: usize) -> (r: bool)
    requires
        i < entries.len(),
        j < entries.len(),
    ensures
        r == listed_before(entries@, i as int, j as int),
{
    let a = &entries[i];
    let b = &entries[j];
    if a.is_dir != b.is_dir {
        a.is_dir
    } else {
        let na = a.name.as_str().as_bytes();
        let nb = b.name.as_str().as_bytes();
        proof {
            lemma_bytes_lt_irreflexive(na@);
        }
        if bytes_less(na, nb) {
            true
        } else if bytes_less(nb, na) {
            proof {
                lemma_bytes_lt_asymmetric(nb@, na@);
            }
            false
        } else {
            proof {
                if na@ != nb@ {
                    lemma_bytes_lt_total(na@, nb@);
                }
            }
            i < j
        }
    }
}

/// The positions of the entries in listing order.
pub fn sorted_listing(entries: &Vec<AssetEntry>) -> (order: Vec<usize>)
    ensures
        order@.map_values(|x: usize| x as int) == listing_order(entries@),
        is_listing_order(entries@, order@.map_values(|x: usize| x as int)),
{
    let n = entries.len();
    let mut order: Vec<usize> = Vec::new();
    let mut i: usize = 0;
    while i < n
        invariant
            n == entries.len(),
            i <= n,
            order.len() == i,
            forall|k: int| 0 <= k < order.len() ==> #[trigger] order@[k] < i,
            forall|x: usize| x < i ==> #[trigger] order@.contains(x),
            forall|k: int, l: int|
                0 <= k < l < order.len() ==> listed_before(entries@, #[trigger] order@[k] as int, #[trigger] order@[l] as int),
        decreases n - i,
    {
        let mut pos: usize = 0;
        while pos < order.len() && !is_listed_before(entries, i, order[pos])
            invariant
                n == entries.len(),
                i < n,
                pos <= order.len(),
                forall|k: int| 0 <= k < order.len() ==> #[trigger] order@[k] < i,
                forall|k: int| 0 <= k < pos ==> !listed_before(entries@, i as int, #[trigger] order@[k] as int),
            decreases order.len() - pos,
        {
            pos = pos + 1;
        }
        let ghost old_order = order@;
        order.insert(pos, i);
        proof {
            assert(order@ == old_order.insert(pos as int, i));
            assert forall|k: int| 0 <= k < order.len() implies #[trigger] order@[k] < i + 1 by {
                if k < pos {
                    assert(order@[k] == old_order[k]);
                } else if k > pos {
                    assert(order@[k] == old_order[k - 1]);
                }
            }
            assert forall|x: usize| x < i + 1 implies #[trigger] order@.contains(x) by {
                if x == i {
                    assert(order@[pos as int] == i);
                } else {
                    assert(old_order.contains(x));
                    let a = choose|a: int| 0 <= a < old_order.len() && old_order[a] == x;
                    if a < pos {
                        assert(order@[a] == x);
                    } else {
                        assert(order@[a + 1] == x);
                    }
                }
            }
            assert forall|k: int, l: int| 0 <= k < l < order.len() implies listed_before(entries@, #[trigger] order@[k] as int, #[trigger] order@[l] as int) by {
                let (ok, ol) = (order@[k] as int, order@[l] as int);
                if l < pos {
                    assert(ok == old_order[k] && ol == old_order[l]);
                } else if l == pos {
                    assert(ok == old_order[k]);
                    assert(!listed_before(entries@, i as int, ok));
                    lemma_listed_before_total(entries@, i as int, ok);
                } else if k > pos {
                    assert(ok == old_order[k - 1] && ol == old_order[l - 1]);
                } else if k == pos {
                    assert(ol == old_order[l - 1]);
                    assert(listed_before(entries@, i as int, old_order[pos as int] as int));
                    if l - 1 > pos {
                        assert(listed_before(entries@, old_order[pos as int] as int, old_order[l - 1] as int));
                        lemma_listed_before_transitive(entries@, i as int, old_order[pos as int] as int, ol);
                    }
                } else {
                    assert(ok == old_order[k] && ol == old_order[l - 1]);
                    assert(!listed_before(entries@, i as int, ok));
                    lemma_listed_before_total(entries@, i as int, ok);
                    assert(listed_before(entries@, ok, i as int));
                    assert(listed_before(entries@, i as int, old_order[pos as int] as int));
                    lemma_listed_before_transitive(entries@, ok, i as int, old_order[pos as int] as int);
                    if l - 1 > pos {
                        assert(listed_before(entries@, old_order[pos as int] as int, ol));
                        lemma_listed_before_transitive(entries@, ok, old_order[pos as int] as int, ol);
                    }
                }
            }
        }
        i = i + 1;
    }
    proof {
        let spec_order = order@.map_values(|x: usize| x as int);
        assert forall|x: int| 0 <= x < entries@.len() implies #[trigger] spec_order.contains(x) by {
            assert(order@.contains(x as usize));
            let a = choose|a: int| 0 <= a < order@.len() && order@[a] == x as usize;
            assert(spec_order[a] == x);
        }
        assert forall|k: int, l: int| 0 <= k < l < spec_order.len() implies listed_before(entries@, #[trigger] spec_order[k], #[trigger] spec_order[l]) by {
            assert(listed_before(entries@, order@[k] as int, order@[l] as int));
        }
        assert forall|k: int| 0 <= k < spec_order.len() implies 0 <= #[trigger] spec_order[k] < entries@.len() by {
            assert(order@[k] < n);
        }
        lemma_listing_order_unique(entries@, spec_order);
    }
    order
}

} // verus!
