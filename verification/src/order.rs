//! Lexicographic order on byte strings, and a stable sort that lists
//! positions of keys in that order.

use vstd::prelude::*;

verus! {

/// Lexicographic "less than" on byte strings: the order of `[u8]`, `str`
/// and `OsStr` comparisons.
pub open spec fn bytes_lt(a: Seq<u8>, b: Seq<u8>) -> bool
    decreases a.len(),
{
    if a.len() == 0 {
        b.len() > 0
    } else if b.len() == 0 {
        false
    } else if a[0] != b[0] {
        a[0] < b[0]
    } else {
        bytes_lt(a.drop_first(), b.drop_first())
    }
}

/// No byte string is below itself.
pub proof fn lemma_bytes_lt_irreflexive(a: Seq<u8>)
    ensures
        !bytes_lt(a, a),
    decreases a.len(),
{
    if a.len() > 0 {
        lemma_bytes_lt_irreflexive(a.drop_first());
    }
}

/// The order is transitive.
pub proof fn lemma_bytes_lt_transitive(a: Seq<u8>, b: Seq<u8>, c: Seq<u8>)
    requires
        bytes_lt(a, b),
        bytes_lt(b, c),
    ensures
        bytes_lt(a, c),
    decreases a.len(),
{
    if a.len() > 0 && b.len() > 0 && c.len() > 0 && a[0] == b[0] && b[0] == c[0] {
        lemma_bytes_lt_transitive(a.drop_first(), b.drop_first(), c.drop_first());
    }
}

/// Two different byte strings are ordered one way or the other, never both.
pub proof fn lemma_bytes_lt_total(a: Seq<u8>, b: Seq<u8>)
    ensures
        a != b ==> (bytes_lt(a, b) || bytes_lt(b, a)),
        !(bytes_lt(a, b) && bytes_lt(b, a)),
    decreases a.len(),
{
    if a.len() > 0 && b.len() > 0 && a[0] == b[0] {
        lemma_bytes_lt_total(a.drop_first(), b.drop_first());
        if a != b {
            assert(a =~= seq![a[0]] + a.drop_first());
            assert(b =~= seq![b[0]] + b.drop_first());
        }
    } else if a.len() == 0 && b.len() == 0 {
        assert(a =~= b);
    }
}

/// Compares two byte strings: negative when `a` comes first, zero when they
/// are equal, positive when `b` comes first.
pub fn compare_bytes(a: &Vec<u8>, b: &Vec<u8>) -> (r: i8)
    ensures
        r < 0 <==> bytes_lt(a@, b@),
        r == 0 <==> a@ == b@,
        r > 0 <==> bytes_lt(b@, a@),
{
    proof {
        lemma_bytes_lt_total(a@, b@);
    }
    let mut k: usize = 0;
    let alen = a.len();
    let blen = b.len();
    assert(a@.skip(0) =~= a@);
    assert(b@.skip(0) =~= b@);
    while k < alen && k < blen && a[k] == b[k]
        invariant
            alen == a@.len(),
            blen == b@.len(),
            k <= alen,
            k <= blen,
            a@.subrange(0, k as int) == b@.subrange(0, k as int),
            bytes_lt(a@, b@) == bytes_lt(a@.skip(k as int), b@.skip(k as int)),
            bytes_lt(b@, a@) == bytes_lt(b@.skip(k as int), a@.skip(k as int)),
        decreases alen - k,
    {
        assert(a@.skip(k as int).drop_first() =~= a@.skip(k + 1));
        assert(b@.skip(k as int).drop_first() =~= b@.skip(k + 1));
        assert(a@.subrange(0, k + 1) =~= a@.subrange(0, k as int).push(a@[k as int]));
        assert(b@.subrange(0, k + 1) =~= b@.subrange(0, k as int).push(b@[k as int]));
        k = k + 1;
    }
    if k < alen && k < blen {
        if a[k] < b[k] {
            -1
        } else {
            1
        }
    } else if k < blen {
        -1
    } else if k < alen {
        1
    } else {
        assert(a@ =~= a@.subrange(0, k as int));
        assert(b@ =~= b@.subrange(0, k as int));
        0
    }
}

/// Whether the entry at position `i` goes before the one at `j` when keys
/// are sorted (ascending, or descending when `descending`) and entries with
/// equal keys keep their positions' order.
pub open spec fn ranks_before(keys: Seq<Seq<u8>>, descending: bool, i: int, j: int) -> bool {
    if keys[i] == keys[j] {
        i < j
    } else if descending {
        bytes_lt(keys[j], keys[i])
    } else {
        bytes_lt(keys[i], keys[j])
    }
}

/// `order` lists every position of `keys` once, sorted by key, equal keys in
/// the order of their positions.
pub open spec fn is_sorted_order(keys: Seq<Seq<u8>>, descending: bool, order: Seq<usize>) -> bool {
    &&& order.len() == keys.len()
    &&& forall|a: int| 0 <= a < order.len() ==> order[a] < keys.len()
    &&& forall|a: int, b: int|
        0 <= a < b < order.len() ==> ranks_before(keys, descending, order[a] as int, order[b] as int)
}

proof fn lemma_ranks_transitive(keys: Seq<Seq<u8>>, descending: bool, i: int, j: int, k: int)
    requires
        ranks_before(keys, descending, i, j),
        ranks_before(keys, descending, j, k),
    ensures
        ranks_before(keys, descending, i, k),
{
    if keys[i] == keys[j] {
    } else if keys[j] == keys[k] {
    } else if keys[i] == keys[k] {
        lemma_bytes_lt_total(keys[i], keys[j]);
    } else if descending {
        lemma_bytes_lt_transitive(keys[k], keys[j], keys[i]);
    } else {
        lemma_bytes_lt_transitive(keys[i], keys[j], keys[k]);
    }
}

proof fn lemma_ranks_total(keys: Seq<Seq<u8>>, descending: bool, i: int, j: int)
    requires
        i != j,
    ensures
        ranks_before(keys, descending, i, j) || ranks_before(keys, descending, j, i),
{
    lemma_bytes_lt_total(keys[i], keys[j]);
}

proof fn lemma_ranks_asymmetric(keys: Seq<Seq<u8>>, descending: bool, i: int, j: int)
    ensures
        !(ranks_before(keys, descending, i, j) && ranks_before(keys, descending, j, i)),
{
    lemma_bytes_lt_total(keys[i], keys[j]);
}

/// Whether `v` occurs in `order`.
pub open spec fn lists(order: Seq<usize>, v: int) -> bool {
    exists|a: int| 0 <= a < order.len() && order[a] == v
}

/// A sorted order lists every position once.
pub proof fn lemma_sorted_order_covers(keys: Seq<Seq<u8>>, descending: bool, order: Seq<usize>)
    requires
        is_sorted_order(keys, descending, order),
    ensures
        forall|v: int| 0 <= v < keys.len() ==> #[trigger] lists(order, v),
{
    let n = keys.len() as int;
    let pi = order.map_values(|x: usize| x as int);
    assert(pi.no_duplicates()) by {
        assert forall|a: int, b: int| 0 <= a < pi.len() && 0 <= b < pi.len() && a != b implies pi[a]
            != pi[b] by {
            if a < b {
                assert(ranks_before(keys, descending, order[a] as int, order[b] as int));
            } else {
                assert(ranks_before(keys, descending, order[b] as int, order[a] as int));
            }
        }
    }
    pi.unique_seq_to_set();
    vstd::set_lib::lemma_int_range(0, n);
    let range = vstd::set_lib::set_int_range(0, n);
    assert(pi.to_set().subset_of(range)) by {
        assert forall|v: int| pi.to_set().contains(v) implies range.contains(v) by {
            let a = choose|a: int| 0 <= a < pi.len() && pi[a] == v;
        }
    }
    vstd::set_lib::lemma_len_subset(pi.to_set(), range);
    vstd::set_lib::lemma_subset_equality(pi.to_set(), range);
    assert forall|v: int| 0 <= v < n implies #[trigger] lists(order, v) by {
        assert(range.contains(v));
        assert(pi.to_set().contains(v));
        let a = choose|a: int| 0 <= a < pi.len() && pi[a] == v;
        assert(order[a] == v);
    }
}

proof fn lemma_sorted_orders_agree_below(
    keys: Seq<Seq<u8>>,
    descending: bool,
    p: Seq<usize>,
    q: Seq<usize>,
    k: int,
)
    requires
        is_sorted_order(keys, descending, p),
        is_sorted_order(keys, descending, q),
        0 <= k <= p.len(),
    ensures
        forall|j: int| 0 <= j < k ==> p[j] == q[j],
    decreases k,
{
    if k > 0 {
        lemma_sorted_orders_agree_below(keys, descending, p, q, k - 1);
        let j = k - 1;
        let x = p[j];
        let y = q[j];
        if x != y {
            lemma_sorted_order_covers(keys, descending, p);
            lemma_sorted_order_covers(keys, descending, q);
            assert(lists(q, x as int));
            assert(lists(p, y as int));
            let a = choose|a: int| 0 <= a < q.len() && q[a] == x as int;
            let b = choose|b: int| 0 <= b < p.len() && p[b] == y as int;
            if a < j {
                assert(p[a] == q[a]);
                assert(ranks_before(keys, descending, p[a] as int, p[j] as int));
            }
            if b < j {
                assert(p[b] == q[b]);
                assert(ranks_before(keys, descending, q[b] as int, q[j] as int));
            }
            assert(ranks_before(keys, descending, q[j] as int, q[a] as int));
            assert(ranks_before(keys, descending, p[j] as int, p[b] as int));
            lemma_ranks_asymmetric(keys, descending, x as int, y as int);
        }
    }
}

/// There is one sorted order of a list of keys, so a sorted listing is
/// determined by its keys.
pub proof fn lemma_sorted_order_unique(
    keys: Seq<Seq<u8>>,
    descending: bool,
    p: Seq<usize>,
    q: Seq<usize>,
)
    requires
        is_sorted_order(keys, descending, p),
        is_sorted_order(keys, descending, q),
    ensures
        p == q,
{
    lemma_sorted_orders_agree_below(keys, descending, p, q, p.len() as int);
    assert(p =~= q);
}

fn goes_before(keys: &Vec<Vec<u8>>, descending: bool, i: usize, j: usize) -> (b: bool)
    requires
        i < keys@.len(),
        j < keys@.len(),
    ensures
        b == ranks_before(keys@.map_values(|k: Vec<u8>| k@), descending, i as int, j as int),
{
    let c = compare_bytes(&keys[i], &keys[j]);
    if c == 0 {
        i < j
    } else if descending {
        c > 0
    } else {
        c < 0
    }
}

/// The positions of `keys` sorted by key (a stable sort).
pub fn sorted_order(keys: &Vec<Vec<u8>>, descending: bool) -> (order: Vec<usize>)
    ensures
        is_sorted_order(keys@.map_values(|k: Vec<u8>| k@), descending, order@),
{
    let ghost ks = keys@.map_values(|k: Vec<u8>| k@);
    let n = keys.len();
    let mut order: Vec<usize> = Vec::new();
    let mut i: usize = 0;
    while i < n
        invariant
            n == keys@.len() == ks.len(),
            ks == keys@.map_values(|k: Vec<u8>| k@),
            i <= n,
            order@.len() == i,
            forall|a: int| 0 <= a < order@.len() ==> order@[a] < i,
            forall|a: int, b: int|
                0 <= a < b < order@.len() ==> ranks_before(
                    ks,
                    descending,
                    order@[a] as int,
                    order@[b] as int,
                ),
        decreases n - i,
    {
        let mut j: usize = order.len();
        while j > 0 && goes_before(keys, descending, i, order[j - 1])
            invariant
                n == keys@.len() == ks.len(),
                ks == keys@.map_values(|k: Vec<u8>| k@),
                i < n,
                j <= order@.len() == i,
                forall|a: int| 0 <= a < order@.len() ==> order@[a] < i,
                forall|b: int|
                    j <= b < order@.len() ==> ranks_before(ks, descending, i as int, order@[b] as int),
            decreases j,
        {
            j = j - 1;
        }
        proof {
            if j > 0 {
                lemma_ranks_total(ks, descending, i as int, order@[j - 1] as int);
                assert forall|a: int| 0 <= a < j implies ranks_before(
                    ks,
                    descending,
                    order@[a] as int,
                    i as int,
                ) by {
                    if a < j - 1 {
                        lemma_ranks_transitive(
                            ks,
                            descending,
                            order@[a] as int,
                            order@[j - 1] as int,
                            i as int,
                        );
                    }
                }
            }
        }
        let ghost old_order = order@;
        order.insert(j, i);
        proof {
            assert forall|a: int, b: int| 0 <= a < b < order@.len() implies ranks_before(
                ks,
                descending,
                order@[a] as int,
                order@[b] as int,
            ) by {
                if b < j {
                    assert(order@[a] == old_order[a] && order@[b] == old_order[b]);
                } else if b == j {
                    assert(order@[a] == old_order[a]);
                } else if a == j {
                    assert(order@[b] == old_order[b - 1]);
                } else if a < j {
                    assert(order@[a] == old_order[a] && order@[b] == old_order[b - 1]);
                } else {
                    assert(order@[a] == old_order[a - 1] && order@[b] == old_order[b - 1]);
                }
            }
        }
        i = i + 1;
    }
    order
}

} // verus!
