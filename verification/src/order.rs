//! Stable sorting by byte strings.

use vstd::prelude::*;

verus! {

/// `a` comes before `b` byte by byte; what `b` begins with comes before it.
pub open spec fn bytes_before(a: Seq<u8>, b: Seq<u8>) -> bool
    decreases a.len(),
{
    if b.len() == 0 {
        false
    } else if a.len() == 0 {
        true
    } else if a[0] != b[0] {
        a[0] < b[0]
    } else {
        bytes_before(a.drop_first(), b.drop_first())
    }
}

/// The item at `i` comes before that at `j`: its key does, or the keys are the
/// same and it stood first.
pub open spec fn item_before(keys: Seq<Seq<u8>>, i: int, j: int) -> bool {
    bytes_before(keys[i], keys[j]) || (keys[i] == keys[j] && i < j)
}

/// Each of `order` comes before all that follow it.
pub open spec fn in_order(keys: Seq<Seq<u8>>, order: Seq<usize>) -> bool {
    forall|p: int, q: int|
        0 <= p < q < order.len() ==> item_before(
            keys,
            (#[trigger] order[p]) as int,
            (#[trigger] order[q]) as int,
        )
}

/// `order` names the items from `low` up to `high`, each of them and no other.
pub open spec fn names_range(order: Seq<usize>, low: int, high: int) -> bool {
    &&& order.len() == high - low
    &&& forall|p: int| 0 <= p < order.len() ==> low <= (#[trigger] order[p]) < high
    &&& forall|k: usize| low <= k < high ==> #[trigger] order.contains(k)
}

/// `order` names all items by their place, in the order of their keys; items
/// with the same key stay in the order in which they stand.
pub open spec fn is_stable_order(keys: Seq<Seq<u8>>, order: Seq<usize>) -> bool {
    names_range(order, 0, keys.len() as int) && in_order(keys, order)
}

proof fn lemma_before_irreflexive(a: Seq<u8>)
    ensures
        !bytes_before(a, a),
    decreases a.len(),
{
    if a.len() > 0 {
        lemma_before_irreflexive(a.drop_first());
    }
}

proof fn lemma_before_transitive(a: Seq<u8>, b: Seq<u8>, c: Seq<u8>)
    requires
        bytes_before(a, b),
        bytes_before(b, c),
    ensures
        bytes_before(a, c),
    decreases a.len(),
{
    if a.len() > 0 && b.len() > 0 && c.len() > 0 && a[0] == b[0] && b[0] == c[0] {
        lemma_before_transitive(a.drop_first(), b.drop_first(), c.drop_first());
    }
}

proof fn lemma_before_total(a: Seq<u8>, b: Seq<u8>)
    ensures
        bytes_before(a, b) || bytes_before(b, a) || a == b,
    decreases a.len(),
{
    if a.len() > 0 && b.len() > 0 && a[0] == b[0] {
        lemma_before_total(a.drop_first(), b.drop_first());
        if a.drop_first() == b.drop_first() {
            assert(a =~= seq![a[0]] + a.drop_first());
            assert(b =~= seq![b[0]] + b.drop_first());
        }
    } else if a.len() == 0 && b.len() == 0 {
        assert(a =~= b);
    }
}

proof fn lemma_item_transitive(keys: Seq<Seq<u8>>, i: int, j: int, k: int)
    requires
        item_before(keys, i, j),
        item_before(keys, j, k),
    ensures
        item_before(keys, i, k),
{
    if bytes_before(keys[i], keys[j]) && bytes_before(keys[j], keys[k]) {
        lemma_before_transitive(keys[i], keys[j], keys[k]);
    }
}

proof fn lemma_item_irreflexive(keys: Seq<Seq<u8>>, i: int)
    ensures
        !item_before(keys, i, i),
{
    lemma_before_irreflexive(keys[i]);
}

/// Of two items one comes before the other, and never both.
pub proof fn one_item_comes_first(keys: Seq<Seq<u8>>, i: int, j: int)
    requires
        i != j,
    ensures
        item_before(keys, i, j) != item_before(keys, j, i),
{
    lemma_before_total(keys[i], keys[j]);
    lemma_before_irreflexive(keys[i]);
    if item_before(keys, i, j) && item_before(keys, j, i) {
        lemma_item_transitive(keys, i, j, i);
        lemma_item_irreflexive(keys, i);
    }
}

/// The stable order of items by their keys is determined: there is only one.
pub proof fn stable_order_is_unique(keys: Seq<Seq<u8>>, a: Seq<usize>, b: Seq<usize>)
    requires
        is_stable_order(keys, a),
        is_stable_order(keys, b),
    ensures
        a == b,
{
    assert forall|p: int| 0 <= p < a.len() implies a[p] == b[p] by {
        lemma_same_prefix(keys, a, b, p + 1);
    }
    assert(a =~= b);
}

/// The first byte in which two keys differ says which comes first; what a key
/// begins with comes before it.
pub proof fn first_difference_decides(a: Seq<u8>, b: Seq<u8>, k: int)
    requires
        0 <= k <= a.len(),
        k <= b.len(),
        forall|i: int| 0 <= i < k ==> a[i] == b[i],
    ensures
        k < a.len() && k < b.len() && a[k] < b[k] ==> bytes_before(a, b) && !bytes_before(b, a),
        k == a.len() && k < b.len() ==> bytes_before(a, b) && !bytes_before(b, a),
        k == a.len() && k == b.len() ==> !bytes_before(a, b) && !bytes_before(b, a),
    decreases k,
{
    if k > 0 {
        let x = a.drop_first();
        let y = b.drop_first();
        assert forall|i: int| 0 <= i < k - 1 implies x[i] == y[i] by {
            assert(a[i + 1] == b[i + 1]);
        }
        first_difference_decides(x, y, k - 1);
    }
}

proof fn lemma_same_prefix(keys: Seq<Seq<u8>>, a: Seq<usize>, b: Seq<usize>, n: int)
    requires
        is_stable_order(keys, a),
        is_stable_order(keys, b),
        0 <= n <= a.len(),
    ensures
        forall|p: int| 0 <= p < n ==> a[p] == b[p],
    decreases n,
{
    if n > 0 {
        lemma_same_prefix(keys, a, b, n - 1);
        let p = n - 1;
        lemma_not_later(keys, a, b, p);
        lemma_not_later(keys, b, a, p);
        if a[p] != b[p] {
            lemma_item_transitive(keys, a[p] as int, b[p] as int, a[p] as int);
            lemma_item_irreflexive(keys, a[p] as int);
        }
    }
}

/// Where two orders agree before `p`, what stands at `p` in the first is what
/// stands there in the second or comes before it.
proof fn lemma_not_later(keys: Seq<Seq<u8>>, a: Seq<usize>, b: Seq<usize>, p: int)
    requires
        is_stable_order(keys, a),
        is_stable_order(keys, b),
        0 <= p < a.len(),
        forall|q: int| 0 <= q < p ==> a[q] == b[q],
    ensures
        a[p] == b[p] || item_before(keys, a[p] as int, b[p] as int),
{
    let k = b[p];
    assert(a.contains(k));
    let at = choose|q: int| 0 <= q < a.len() && a[q] == k;
    if at < p {
        assert(b[at] == k);
        assert(item_before(keys, b[at] as int, b[p] as int));
        lemma_item_irreflexive(keys, k as int);
    }
}

/// Whether `a` comes before `b`.
fn comes_before(a: &[u8], b: &[u8]) -> (r: bool)
    ensures
        r == bytes_before(a@, b@),
{
    let mut at: usize = 0;
    assert(a@.skip(0) =~= a@);
    assert(b@.skip(0) =~= b@);
    while at < a.len() && at < b.len()
        invariant
            at <= a@.len(),
            at <= b@.len(),
            bytes_before(a@, b@) == bytes_before(a@.skip(at as int), b@.skip(at as int)),
        decreases a@.len() - at,
    {
        if a[at] != b[at] {
            return a[at] < b[at];
        }
        assert(a@.skip(at as int).drop_first() =~= a@.skip(at + 1));
        assert(b@.skip(at as int).drop_first() =~= b@.skip(at + 1));
        at = at + 1;
    }
    at < b.len()
}

/// The keys as mathematical values.
pub open spec fn key_views(keys: Seq<&[u8]>) -> Seq<Seq<u8>> {
    keys.map_values(|key: &[u8]| key@)
}

/// The places of the items from `low` up to `high`, in the order of their keys.
fn sort_range(keys: &Vec<&[u8]>, low: usize, high: usize) -> (order: Vec<usize>)
    requires
        low <= high <= keys@.len(),
    ensures
        names_range(order@, low as int, high as int),
        in_order(key_views(keys@), order@),
    decreases high - low,
{
    if high - low <= 1 {
        let mut order: Vec<usize> = Vec::new();
        if low < high {
            order.push(low);
            assert(order@[0] == low);
        }
        return order;
    }
    let middle: usize = low + (high - low) / 2;
    let left: Vec<usize> = sort_range(keys, low, middle);
    let right: Vec<usize> = sort_range(keys, middle, high);
    merge(keys, low, middle, high, left, right)
}

/// Merges two neighbouring ranges that are in order.
fn merge(
    keys: &Vec<&[u8]>,
    low: usize,
    middle: usize,
    high: usize,
    left: Vec<usize>,
    right: Vec<usize>,
) -> (order: Vec<usize>)
    requires
        low <= middle <= high <= keys@.len(),
        names_range(left@, low as int, middle as int),
        names_range(right@, middle as int, high as int),
        in_order(key_views(keys@), left@),
        in_order(key_views(keys@), right@),
    ensures
        names_range(order@, low as int, high as int),
        in_order(key_views(keys@), order@),
{
    let ghost views = key_views(keys@);
    let mut order: Vec<usize> = Vec::new();
    let mut a: usize = 0;
    let mut b: usize = 0;
    while a < left.len() || b < right.len()
        invariant
            low <= middle <= high <= keys@.len(),
            views == key_views(keys@),
            names_range(left@, low as int, middle as int),
            names_range(right@, middle as int, high as int),
            in_order(views, left@),
            in_order(views, right@),
            a <= left@.len(),
            b <= right@.len(),
            order@.len() == a + b,
            in_order(views, order@),
            forall|p: int| 0 <= p < order@.len() ==> low <= (#[trigger] order@[p]) < high,
            forall|p: int| 0 <= p < a ==> order@.contains(#[trigger] left@[p]),
            forall|p: int| 0 <= p < b ==> order@.contains(#[trigger] right@[p]),
            forall|p: int, q: int|
                0 <= p < order@.len() && a <= q < left@.len() ==> item_before(
                    views,
                    (#[trigger] order@[p]) as int,
                    (#[trigger] left@[q]) as int,
                ),
            forall|p: int, q: int|
                0 <= p < order@.len() && b <= q < right@.len() ==> item_before(
                    views,
                    (#[trigger] order@[p]) as int,
                    (#[trigger] right@[q]) as int,
                ),
        decreases left@.len() - a + right@.len() - b,
    {
        let take_left: bool = if a == left.len() {
            false
        } else if b == right.len() {
            true
        } else {
            !comes_before(keys[right[b]], keys[left[a]])
        };
        let ghost before = order@;
        if take_left {
            let item: usize = left[a];
            proof {
                if b < right@.len() {
                    lemma_before_total(views[item as int], views[right@[b as int] as int]);
                    assert(item_before(views, item as int, right@[b as int] as int));
                    assert forall|q: int| b <= q < right@.len() implies item_before(
                        views,
                        item as int,
                        (#[trigger] right@[q]) as int,
                    ) by {
                        if q > b {
                            lemma_item_transitive(
                                views,
                                item as int,
                                right@[b as int] as int,
                                right@[q] as int,
                            );
                        }
                    }
                }
            }
            order.push(item);
            a = a + 1;
        } else {
            let item: usize = right[b];
            proof {
                if a < left@.len() {
                    assert(item_before(views, item as int, left@[a as int] as int));
                    assert forall|q: int| a <= q < left@.len() implies item_before(
                        views,
                        item as int,
                        (#[trigger] left@[q]) as int,
                    ) by {
                        if q > a {
                            lemma_item_transitive(
                                views,
                                item as int,
                                left@[a as int] as int,
                                left@[q] as int,
                            );
                        }
                    }
                }
            }
            order.push(item);
            b = b + 1;
        }
        proof {
            assert forall|k: usize| before.contains(k) implies order@.contains(k) by {
                let p = choose|p: int| 0 <= p < before.len() && before[p] == k;
                assert(order@[p] == k);
            }
            assert(order@[before.len() as int] == order@.last());
            assert(order@.contains(order@.last()));
            assert forall|p: int| 0 <= p < a implies order@.contains(#[trigger] left@[p]) by {}
            assert forall|p: int| 0 <= p < b implies order@.contains(#[trigger] right@[p]) by {}
        }
    }
    proof {
        assert forall|k: usize| low <= k < high implies #[trigger] order@.contains(k) by {
            if k < middle {
                assert(left@.contains(k));
                let p = choose|p: int| 0 <= p < left@.len() && left@[p] == k;
                assert(order@.contains(left@[p]));
            } else {
                assert(right@.contains(k));
                let p = choose|p: int| 0 <= p < right@.len() && right@[p] == k;
                assert(order@.contains(right@[p]));
            }
        }
    }
    order
}

/// The places of the items in the order of their keys; items with the same key
/// stay in the order in which they stand.
pub fn stable_order(keys: &Vec<&[u8]>) -> (order: Vec<usize>)
    ensures
        is_stable_order(key_views(keys@), order@),
{
    sort_range(keys, 0, keys.len())
}

} // verus!
