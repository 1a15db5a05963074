//! A stable sort by key, where keys are compared like words in a dictionary.
use vstd::prelude::*;

verus! {

/// Whether `a` comes before `b` in a dictionary.
pub open spec fn before(a: Seq<u32>, b: Seq<u32>) -> bool
    decreases a.len(),
{
    if b.len() == 0 {
        false
    } else if a.len() == 0 {
        true
    } else if a[0] != b[0] {
        a[0] < b[0]
    } else {
        before(a.drop_first(), b.drop_first())
    }
}

/// No word comes before itself, and of two words at most one comes before the
/// other.
pub proof fn order_is_strict(a: Seq<u32>, b: Seq<u32>)
    ensures
        !(before(a, b) && before(b, a)),
        !before(a, a),
    decreases a.len(),
{
    if a.len() > 0 {
        order_is_strict(a.drop_first(), a.drop_first());
        if b.len() > 0 && a[0] == b[0] {
            order_is_strict(a.drop_first(), b.drop_first());
        }
    }
}

/// Of two different words one comes before the other.
pub proof fn order_is_total(a: Seq<u32>, b: Seq<u32>)
    ensures
        before(a, b) || before(b, a) || a == b,
    decreases a.len(),
{
    if a.len() > 0 && b.len() > 0 {
        if a[0] == b[0] {
            order_is_total(a.drop_first(), b.drop_first());
            if a.drop_first() == b.drop_first() {
                assert(a =~= seq![a[0]] + a.drop_first());
                assert(b =~= seq![b[0]] + b.drop_first());
            }
        }
    } else if a.len() == 0 && b.len() == 0 {
        assert(a =~= b);
    }
}

/// What comes before an earlier word comes before a later one.
pub proof fn order_is_transitive(a: Seq<u32>, b: Seq<u32>, c: Seq<u32>)
    ensures
        before(a, b) && before(b, c) ==> before(a, c),
    decreases a.len(),
{
    if a.len() > 0 && b.len() > 0 && c.len() > 0 && a[0] == b[0] && b[0] == c[0] {
        order_is_transitive(a.drop_first(), b.drop_first(), c.drop_first());
    }
}

/// Whether the item at `i` goes before the one at `j`: by key, and by position
/// where the keys are the same.
pub open spec fn goes_before(keys: Seq<Seq<u32>>, i: int, j: int) -> bool {
    before(keys[i], keys[j]) || (keys[i] == keys[j] && i < j)
}

/// Whether `order` lists each of the first `n` positions once, sorted.
pub open spec fn sorts(keys: Seq<Seq<u32>>, order: Seq<int>, n: int) -> bool {
    &&& order.len() == n
    &&& forall|i: int| 0 <= i < n ==> 0 <= #[trigger] order[i] < n
    &&& forall|i: int, j: int|
        0 <= i < j < n ==> goes_before(keys, #[trigger] order[i], #[trigger] order[j])
}

/// The keys held by a vector.
pub open spec fn keys_of(keys: Seq<Vec<u32>>) -> Seq<Seq<u32>> {
    Seq::new(keys.len(), |i: int| keys[i]@)
}

/// The positions held by a vector.
pub open spec fn positions(order: Seq<usize>) -> Seq<int> {
    Seq::new(order.len(), |i: int| order[i] as int)
}

fn is_before(a: &Vec<u32>, b: &Vec<u32>) -> (r: bool)
    ensures
        r == before(a@, b@),
{
    let mut i: usize = 0;
    assert(a@.skip(0) =~= a@);
    assert(b@.skip(0) =~= b@);
    while i < a.len() && i < b.len()
        invariant
            i <= a@.len(),
            i <= b@.len(),
            before(a@, b@) == before(a@.skip(i as int), b@.skip(i as int)),
        decreases a@.len() - i,
    {
        if a[i] != b[i] {
            return a[i] < b[i];
        }
        assert(a@.skip(i as int).drop_first() =~= a@.skip(i + 1));
        assert(b@.skip(i as int).drop_first() =~= b@.skip(i + 1));
        i += 1;
    }
    i < b.len()
}

/// Where the item at `k`, which comes after all of `order`, is to go.
fn place(keys: &Vec<Vec<u32>>, order: &Vec<usize>, k: usize) -> (r: usize)
    requires
        k < keys@.len(),
        sorts(keys_of(keys@), positions(order@), k as int),
    ensures
        r <= order@.len(),
        forall|i: int| 0 <= i < r ==> goes_before(keys_of(keys@), #[trigger] positions(order@)[i], k as int),
        forall|i: int|
            r <= i < order@.len() ==> goes_before(
                keys_of(keys@),
                k as int,
                #[trigger] positions(order@)[i],
            ),
{
    let ghost ks = keys_of(keys@);
    let ghost os = positions(order@);
    let mut lo: usize = 0;
    let mut hi: usize = order.len();
    while lo < hi
        invariant
            k < keys@.len(),
            ks == keys_of(keys@),
            os == positions(order@),
            sorts(ks, os, k as int),
            lo <= hi <= order@.len(),
            forall|i: int| 0 <= i < lo ==> goes_before(ks, #[trigger] os[i], k as int),
            forall|i: int| hi <= i < order@.len() ==> goes_before(ks, k as int, #[trigger] os[i]),
        decreases hi - lo,
    {
        let mid: usize = lo + (hi - lo) / 2;
        let ghost m = os[mid as int];
        assert(m == order@[mid as int]);
        assert(ks[m] == keys@[m]@ && ks[k as int] == keys@[k as int]@);
        if is_before(&keys[k], &keys[order[mid]]) {
            assert forall|i: int| mid <= i < order@.len() implies goes_before(
                ks,
                k as int,
                #[trigger] os[i],
            ) by {
                if i > mid {
                    assert(goes_before(ks, os[mid as int], os[i]));
                    order_is_transitive(ks[k as int], ks[m], ks[os[i]]);
                }
            }
            hi = mid;
        } else {
            proof {
                order_is_total(ks[k as int], ks[m]);
            }
            assert(goes_before(ks, m, k as int));
            assert forall|i: int| 0 <= i < mid + 1 implies goes_before(
                ks,
                #[trigger] os[i],
                k as int,
            ) by {
                if i < mid {
                    assert(goes_before(ks, os[i], os[mid as int]));
                    order_is_transitive(ks[os[i]], ks[m], ks[k as int]);
                }
            }
            lo = mid + 1;
        }
    }
    lo
}

proof fn lemma_inserted(keys: Seq<Seq<u32>>, order: Seq<int>, p: int, k: int)
    requires
        sorts(keys, order, k),
        0 <= p <= k,
        forall|i: int| 0 <= i < p ==> goes_before(keys, #[trigger] order[i], k),
        forall|i: int| p <= i < k ==> goes_before(keys, k, #[trigger] order[i]),
    ensures
        sorts(keys, order.insert(p, k), k + 1),
{
    let ns = order.insert(p, k);
    assert forall|i: int, j: int| 0 <= i < j < k + 1 implies goes_before(
        keys,
        #[trigger] ns[i],
        #[trigger] ns[j],
    ) by {
        if i < p && j < p {
            assert(ns[i] == order[i] && ns[j] == order[j]);
        } else if i < p && j == p {
            assert(ns[i] == order[i]);
        } else if i < p {
            assert(ns[i] == order[i] && ns[j] == order[j - 1]);
        } else if i == p {
            assert(ns[j] == order[j - 1]);
        } else {
            assert(ns[i] == order[i - 1] && ns[j] == order[j - 1]);
        }
    }
    assert forall|i: int| 0 <= i < k + 1 implies 0 <= #[trigger] ns[i] < k + 1 by {
        if i < p {
            assert(ns[i] == order[i]);
        } else if i > p {
            assert(ns[i] == order[i - 1]);
        }
    }
}

/// Sorts positions by their keys. Equal keys stay in their order.
pub fn sort_order(keys: &Vec<Vec<u32>>) -> (r: Vec<usize>)
    ensures
        sorts(keys_of(keys@), positions(r@), keys@.len() as int),
{
    let mut order: Vec<usize> = Vec::new();
    let ghost ks = keys_of(keys@);
    let mut k: usize = 0;
    while k < keys.len()
        invariant
            k <= keys@.len(),
            ks == keys_of(keys@),
            sorts(ks, positions(order@), k as int),
        decreases keys@.len() - k,
    {
        let p = place(keys, &order, k);
        let ghost os = positions(order@);
        order.insert(p, k);
        proof {
            lemma_inserted(ks, os, p as int, k as int);
            assert(positions(order@) =~= os.insert(p as int, k as int));
        }
        k += 1;
    }
    order
}

/// A sorted list of positions leaves none of them out.
pub proof fn sorting_keeps_all(keys: Seq<Seq<u32>>, order: Seq<int>, n: int)
    requires
        sorts(keys, order, n),
    ensures
        order.no_duplicates(),
        order.to_set() == Set::new(|i: int| 0 <= i < n),
{
    assert forall|i: int, j: int| 0 <= i < j < n implies order[i] != order[j] by {
        assert(goes_before(keys, order[i], order[j]));
        order_is_strict(keys[order[i]], keys[order[j]]);
    }
    let all = vstd::set_lib::set_int_range(0, n);
    vstd::set_lib::lemma_int_range(0, n);
    order.unique_seq_to_set();
    assert(order.to_set().subset_of(all)) by {
        assert forall|x: int| order.to_set().contains(x) implies all.contains(x) by {
            let i = choose|i: int| 0 <= i < order.len() && order[i] == x;
            assert(0 <= order[i] < n);
        }
    }
    vstd::set_lib::lemma_subset_equality(order.to_set(), all);
    assert(all =~= Set::new(|i: int| 0 <= i < n));
}

/// There is only one way to sort.
pub proof fn sorting_is_unique(keys: Seq<Seq<u32>>, p: Seq<int>, q: Seq<int>, n: int)
    requires
        sorts(keys, p, n),
        sorts(keys, q, n),
    ensures
        p == q,
{
    sorting_keeps_all(keys, p, n);
    sorting_keeps_all(keys, q, n);
    assert forall|i: int| 0 <= i < n implies p[i] == q[i] by {
        lemma_same_prefix(keys, p, q, n, i + 1);
    }
    assert(p =~= q);
}

proof fn lemma_same_prefix(keys: Seq<Seq<u32>>, p: Seq<int>, q: Seq<int>, n: int, k: int)
    requires
        sorts(keys, p, n),
        sorts(keys, q, n),
        p.to_set() == Set::new(|i: int| 0 <= i < n),
        q.to_set() == Set::new(|i: int| 0 <= i < n),
        p.no_duplicates(),
        q.no_duplicates(),
        0 <= k <= n,
    ensures
        forall|i: int| 0 <= i < k ==> p[i] == q[i],
    decreases k,
{
    if k > 0 {
        lemma_same_prefix(keys, p, q, n, k - 1);
        let (a, b) = (p[k - 1], q[k - 1]);
        if a != b {
            assert(q.to_set().contains(a));
            assert(p.to_set().contains(b));
            let i = choose|i: int| 0 <= i < n && q[i] == a;
            let j = choose|j: int| 0 <= j < n && p[j] == b;
            if i < k - 1 {
                assert(p[i] == q[i]);
            }
            if j < k - 1 {
                assert(p[j] == q[j]);
            }
            assert(goes_before(keys, q[k - 1], q[i]));
            assert(goes_before(keys, p[k - 1], p[j]));
            order_is_strict(keys[a], keys[b]);
        }
    }
}

/// The sorted positions for some keys.
pub open spec fn order_of(keys: Seq<Seq<u32>>) -> Seq<int> {
    choose|o: Seq<int>| sorts(keys, o, keys.len() as int)
}

proof fn lemma_place(keys: Seq<Seq<u32>>, order: Seq<int>, k: int, i: int) -> (p: int)
    requires
        0 <= i <= k < keys.len(),
        sorts(keys, order, k),
        forall|j: int| 0 <= j < i ==> goes_before(keys, #[trigger] order[j], k),
    ensures
        0 <= p <= k,
        forall|j: int| 0 <= j < p ==> goes_before(keys, #[trigger] order[j], k),
        forall|j: int| p <= j < k ==> goes_before(keys, k, #[trigger] order[j]),
    decreases k - i,
{
    if i == k {
        i
    } else if before(keys[k], keys[order[i]]) {
        assert forall|j: int| i <= j < k implies goes_before(keys, k, #[trigger] order[j]) by {
            if j > i {
                assert(goes_before(keys, order[i], order[j]));
                order_is_transitive(keys[k], keys[order[i]], keys[order[j]]);
            }
        }
        i
    } else {
        order_is_total(keys[k], keys[order[i]]);
        assert(goes_before(keys, order[i], k));
        lemma_place(keys, order, k, i + 1)
    }
}

proof fn lemma_some_order(keys: Seq<Seq<u32>>, n: int) -> (o: Seq<int>)
    requires
        0 <= n <= keys.len(),
    ensures
        sorts(keys, o, n),
    decreases n,
{
    if n == 0 {
        seq![]
    } else {
        let rest = lemma_some_order(keys, n - 1);
        let p = lemma_place(keys, rest, n - 1, 0);
        lemma_inserted(keys, rest, p, n - 1);
        rest.insert(p, n - 1)
    }
}

/// Whatever the keys are, there is an order, and it is sorted.
pub proof fn order_is_sorted(keys: Seq<Seq<u32>>)
    ensures
        sorts(keys, order_of(keys), keys.len() as int),
{
    let o = lemma_some_order(keys, keys.len() as int);
    assert(sorts(keys, o, keys.len() as int));
}

/// Sorted positions are the sorted positions.
pub proof fn lemma_order_of(keys: Seq<Seq<u32>>, o: Seq<int>)
    requires
        sorts(keys, o, keys.len() as int),
    ensures
        order_of(keys) == o,
{
    sorting_is_unique(keys, order_of(keys), o, keys.len() as int);
}

/// Items in the order of a list of positions.
pub open spec fn arranged<A>(items: Seq<A>, order: Seq<int>) -> Seq<A> {
    Seq::new(order.len(), |i: int| items[order[i]])
}

/// Words are ordered by their first difference, and a word comes before every word
/// that it begins.
pub proof fn first_difference_decides(p: Seq<u32>, x: u32, y: u32, a: Seq<u32>, b: Seq<u32>)
    ensures
        x < y ==> before(p + seq![x] + a, p + seq![y] + b),
        x < y ==> !before(p + seq![y] + b, p + seq![x] + a),
        before(p, p + seq![x] + a),
        !before(p + seq![x] + a, p),
    decreases p.len(),
{
    let (s, t) = (p + seq![x] + a, p + seq![y] + b);
    if p.len() == 0 {
        assert(s[0] == x && t[0] == y);
    } else {
        let q = p.drop_first();
        assert(s[0] == p[0] && t[0] == p[0]);
        assert(s.drop_first() =~= q + seq![x] + a);
        assert(t.drop_first() =~= q + seq![y] + b);
        first_difference_decides(q, x, y, a, b);
    }
}

} // verus!
