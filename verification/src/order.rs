use vstd::prelude::*;

verus! {

/// Position `a` comes before position `b` when its key is smaller, or when the
/// keys tie and `a` was earlier: the order of a stable sort by key.
pub open spec fn precedes(keys: Seq<u64>, a: int, b: int) -> bool {
    keys[a] < keys[b] || (keys[a] == keys[b] && a < b)
}

/// `order` lists every position of `keys` exactly once, arranged so that keys
/// never decrease and positions with equal keys keep their order of input.
pub open spec fn is_stable_order(keys: Seq<u64>, order: Seq<usize>) -> bool {
    &&& order.len() == keys.len()
    &&& forall|i: int| 0 <= i < order.len() ==> #[trigger] order[i] < keys.len()
    &&& forall|p: int| 0 <= p < keys.len() ==> #[trigger] order.contains(p as usize)
    &&& forall|i: int, j: int|
        0 <= i < j < order.len() ==> precedes(keys, #[trigger] order[i] as int, #[trigger] order[j] as int)
}

/// The positions of `keys` in the order of a stable ascending sort by key.
///
/// Values that are compared by a total preorder are sorted by handing this
/// function one key per value that orders them the same way.
pub fn stable_order(keys: &[u64]) -> (order: Vec<usize>)
    ensures
        is_stable_order(keys@, order@),
{
    let n = keys.len();
    let mut order: Vec<usize> = Vec::new();
    let mut k: usize = 0;
    while k < n
        invariant
            n == keys@.len(),
            k <= n,
            order@.len() == k,
            forall|i: int| 0 <= i < k ==> #[trigger] order@[i] < k,
            forall|p: int| 0 <= p < k ==> #[trigger] order@.contains(p as usize),
            forall|i: int, j: int|
                0 <= i < j < k ==> precedes(keys@, #[trigger] order@[i] as int, #[trigger] order@[j] as int),
        decreases n - k,
    {
        let key = keys[k];
        let mut pos: usize = k;
        while pos > 0 && keys[order[pos - 1]] > key
            invariant
                n == keys@.len(),
                k < n,
                key == keys@[k as int],
                order@.len() == k,
                pos <= k,
                forall|i: int| 0 <= i < k ==> #[trigger] order@[i] < k,
                forall|i: int| pos <= i < k ==> keys@[#[trigger] order@[i] as int] > key,
            decreases pos,
        {
            pos = pos - 1;
        }
        let ghost old_order = order@;
        order.insert(pos, k);
        proof {
            assert(order@ == old_order.insert(pos as int, k));
            assert forall|i: int| 0 <= i < k + 1 implies #[trigger] order@[i] < k + 1 by {
                if i < pos {
                    assert(order@[i] == old_order[i]);
                } else if i > pos {
                    assert(order@[i] == old_order[i - 1]);
                }
            }
            assert forall|p: int| 0 <= p < k + 1 implies #[trigger] order@.contains(p as usize) by {
                if p == k {
                    assert(order@[pos as int] == k);
                } else {
                    assert(old_order.contains(p as usize));
                    let w = choose|w: int| 0 <= w < old_order.len() && old_order[w] == p as usize;
                    if w < pos {
                        assert(order@[w] == p as usize);
                    } else {
                        assert(order@[w + 1] == p as usize);
                    }
                }
            }
            assert forall|i: int, j: int| 0 <= i < j < k + 1 implies precedes(
                keys@,
                #[trigger] order@[i] as int,
                #[trigger] order@[j] as int,
            ) by {
                if j < pos {
                    assert(order@[i] == old_order[i]);
                    assert(order@[j] == old_order[j]);
                } else if j == pos {
                    assert(order@[i] == old_order[i]);
                    // the element just before the gap precedes the new one
                    let last = old_order[pos - 1];
                    assert(keys@[last as int] <= key);
                    if i < pos - 1 {
                        assert(precedes(keys@, old_order[i] as int, old_order[pos - 1] as int));
                    }
                } else if i > pos {
                    assert(order@[i] == old_order[i - 1]);
                    assert(order@[j] == old_order[j - 1]);
                } else if i == pos {
                    assert(order@[j] == old_order[j - 1]);
                    assert(keys@[old_order[j - 1] as int] > key);
                } else {
                    assert(order@[i] == old_order[i]);
                    assert(order@[j] == old_order[j - 1]);
                    assert(precedes(keys@, old_order[i] as int, old_order[j - 1] as int));
                }
            }
        }
        k = k + 1;
    }
    order
}

/// The items rearranged into the given order: item `i` of the result is
/// `items[order[i]]`.
pub fn arrange<T: Copy>(items: &[T], order: &[usize]) -> (arranged: Vec<T>)
    requires
        forall|i: int| 0 <= i < order@.len() ==> #[trigger] order@[i] < items@.len(),
    ensures
        arranged@.len() == order@.len(),
        forall|i: int| 0 <= i < order@.len() ==> #[trigger] arranged@[i] == items@[order@[i] as int],
{
    let mut arranged: Vec<T> = Vec::new();
    let mut i: usize = 0;
    while i < order.len()
        invariant
            i <= order@.len(),
            arranged@.len() == i,
            forall|m: int| 0 <= m < order@.len() ==> #[trigger] order@[m] < items@.len(),
            forall|m: int| 0 <= m < i ==> #[trigger] arranged@[m] == items@[order@[m] as int],
        decreases order@.len() - i,
    {
        arranged.push(items[order[i]]);
        i = i + 1;
    }
    arranged
}

/// Law: the keys determine the stable order; no two different arrangements
/// both sort the same keys stably.
pub proof fn lemma_stable_order_unique(keys: Seq<u64>, o1: Seq<usize>, o2: Seq<usize>)
    requires
        is_stable_order(keys, o1),
        is_stable_order(keys, o2),
    ensures
        o1 == o2,
{
    if o1 != o2 {
        assert(exists|i: int| 0 <= i < o1.len() && o1[i] != o2[i]) by {
            if forall|i: int| 0 <= i < o1.len() ==> o1[i] == o2[i] {
                assert(o1 =~= o2);
            }
        }
        assert(exists|i: int|
            0 <= i < o1.len() && o1[i] != o2[i] && forall|m: int| 0 <= m < i ==> o1[m] == o2[m])
            by {
            lemma_first_difference(o1, o2, 0);
        }
        let i = choose|i: int|
            0 <= i < o1.len() && o1[i] != o2[i] && forall|m: int| 0 <= m < i ==> o1[m] == o2[m];
        let a = o1[i];
        let b = o2[i];
        // b sits after position i in o1, and a sits after position i in o2
        assert(o1.contains((b as int) as usize));
        let j = choose|j: int| 0 <= j < o1.len() && o1[j] == b;
        assert(o2.contains((a as int) as usize));
        let k = choose|k: int| 0 <= k < o2.len() && o2[k] == a;
        if j < i {
            assert(o2[j] == b);
            assert(precedes(keys, o2[j] as int, o2[i] as int));
        }
        if k < i {
            assert(o1[k] == a);
            assert(precedes(keys, o1[k] as int, o1[i] as int));
        }
        assert(precedes(keys, o1[i] as int, o1[j] as int));
        assert(precedes(keys, o2[i] as int, o2[k] as int));
    }
}

proof fn lemma_first_difference(o1: Seq<usize>, o2: Seq<usize>, start: int)
    requires
        o1.len() == o2.len(),
        0 <= start <= o1.len(),
        forall|m: int| 0 <= m < start ==> o1[m] == o2[m],
        exists|i: int| start <= i < o1.len() && o1[i] != o2[i],
    ensures
        exists|i: int|
            0 <= i < o1.len() && o1[i] != o2[i] && forall|m: int| 0 <= m < i ==> o1[m] == o2[m],
    decreases o1.len() - start,
{
    if o1[start] != o2[start] {
        assert(forall|m: int| 0 <= m < start ==> o1[m] == o2[m]);
    } else {
        lemma_first_difference(o1, o2, start + 1);
    }
}

/// Law: the keys taken in a stable order never decrease.
pub proof fn lemma_stable_order_sorts(keys: Seq<u64>, order: Seq<usize>)
    requires
        is_stable_order(keys, order),
    ensures
        forall|i: int, j: int|
            0 <= i <= j < order.len() ==> keys[#[trigger] order[i] as int] <= keys[#[trigger] order[j] as int],
{
    assert forall|i: int, j: int| 0 <= i <= j < order.len() implies keys[#[trigger] order[i] as int]
        <= keys[#[trigger] order[j] as int] by {
        if i < j {
            assert(precedes(keys, order[i] as int, order[j] as int));
        }
    }
}

} // verus!
