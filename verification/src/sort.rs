//! The order in which indexed items are used: ascending by index, and by position where
//! two indices are equal.

use vstd::prelude::*;

verus! {

/// `order` with position `p` put in behind every position whose key is at most that of `p`.
pub open spec fn place(order: Seq<usize>, keys: Seq<usize>, p: usize) -> Seq<usize>
    decreases order.len(),
{
    if order.len() == 0 || keys[order.last() as int] <= keys[p as int] {
        order.push(p)
    } else {
        place(order.drop_last(), keys, p).push(order.last())
    }
}

/// The first `n` positions of `keys`, ordered by key, positions with equal keys in
/// ascending order.
pub open spec fn order_of_first(keys: Seq<usize>, n: nat) -> Seq<usize>
    decreases n,
{
    if n == 0 {
        Seq::empty()
    } else {
        place(order_of_first(keys, (n - 1) as nat), keys, (n - 1) as usize)
    }
}

/// The positions of `keys` in the order of a stable sort by key.
pub open spec fn stable_order(keys: Seq<usize>) -> Seq<usize> {
    order_of_first(keys, keys.len())
}

/// Whether position `a` comes before position `b`: its key is smaller, or the keys are
/// equal and `a` is the earlier position.
pub open spec fn comes_before(keys: Seq<usize>, a: usize, b: usize) -> bool {
    keys[a as int] < keys[b as int] || (keys[a as int] == keys[b as int] && a < b)
}

/// Whether `order` lists positions below `bound`, each before all that follow it.
pub open spec fn is_ordered(order: Seq<usize>, keys: Seq<usize>, bound: int) -> bool {
    &&& forall|i: int| 0 <= i < order.len() ==> #[trigger] order[i] < bound
    &&& forall|i: int, j: int|
        0 <= i < j < order.len() ==> comes_before(keys, #[trigger] order[i], #[trigger] order[j])
}

/// Putting in a position that is above all the listed ones keeps the list ordered, keeps
/// every listed position, and adds the new one.
pub proof fn lemma_place(order: Seq<usize>, keys: Seq<usize>, p: usize)
    requires
        is_ordered(order, keys, p as int),
        p < keys.len(),
    ensures
        is_ordered(place(order, keys, p), keys, p + 1),
        place(order, keys, p).len() == order.len() + 1,
        place(order, keys, p).contains(p),
        forall|q: usize| #[trigger] order.contains(q) ==> place(order, keys, p).contains(q),
        forall|q: usize| #[trigger]
            place(order, keys, p).contains(q) ==> q == p || order.contains(q),
    decreases order.len(),
{
    let placed = place(order, keys, p);
    if order.len() == 0 || keys[order.last() as int] <= keys[p as int] {
        assert(placed[order.len() as int] == p);
        assert forall|q: usize| order.contains(q) implies placed.contains(q) by {
            let k = choose|k: int| 0 <= k < order.len() && order[k] == q;
            assert(placed[k] == q);
        }
        assert forall|i: int, j: int| 0 <= i < j < placed.len() implies comes_before(
            keys,
            #[trigger] placed[i],
            #[trigger] placed[j],
        ) by {
            if j == order.len() {
                assert(placed[i] == order[i]);
                if i < order.len() - 1 {
                    assert(comes_before(keys, order[i], order[order.len() - 1]));
                }
            } else {
                assert(comes_before(keys, order[i], order[j]));
            }
        }
    } else {
        let front = order.drop_last();
        let last = order.last();
        assert forall|i: int, j: int| 0 <= i < j < front.len() implies comes_before(
            keys,
            #[trigger] front[i],
            #[trigger] front[j],
        ) by {
            assert(comes_before(keys, order[i], order[j]));
        }
        assert forall|i: int| 0 <= i < front.len() implies #[trigger] front[i] < p by {
            assert(order[i] < p);
        }
        lemma_place(front, keys, p);
        let inner = place(front, keys, p);
        assert(placed == inner.push(last));
        assert(placed[inner.len() as int] == last);
        assert(placed.contains(p)) by {
            let k = choose|k: int| 0 <= k < inner.len() && inner[k] == p;
            assert(placed[k] == p);
        }
        assert forall|q: usize| order.contains(q) implies placed.contains(q) by {
            let k = choose|k: int| 0 <= k < order.len() && order[k] == q;
            if k == order.len() - 1 {
                assert(placed[inner.len() as int] == q);
            } else {
                assert(front[k] == q);
                assert(front.contains(q));
                assert(inner.contains(q));
                let m = choose|m: int| 0 <= m < inner.len() && inner[m] == q;
                assert(placed[m] == q);
            }
        }
        assert forall|q: usize| placed.contains(q) implies q == p || order.contains(q) by {
            let k = choose|k: int| 0 <= k < placed.len() && placed[k] == q;
            if k == inner.len() {
                assert(order[order.len() - 1] == q);
            } else {
                assert(inner[k] == q);
                assert(inner.contains(q));
                if q != p {
                    let m = choose|m: int| 0 <= m < front.len() && front[m] == q;
                    assert(order[m] == q);
                }
            }
        }
        assert forall|i: int| 0 <= i < placed.len() implies #[trigger] placed[i] < p + 1 by {
            if i < inner.len() {
                assert(inner[i] < p + 1);
            } else {
                assert(order[order.len() - 1] < p);
            }
        }
        assert forall|i: int, j: int| 0 <= i < j < placed.len() implies comes_before(
            keys,
            #[trigger] placed[i],
            #[trigger] placed[j],
        ) by {
            if j < inner.len() {
                assert(comes_before(keys, inner[i], inner[j]));
            } else {
                let q = inner[i];
                assert(inner.contains(q));
                if q == p {
                } else {
                    let m = choose|m: int| 0 <= m < front.len() && front[m] == q;
                    assert(comes_before(keys, order[m], order[order.len() - 1]));
                }
            }
        }
    }
}

/// A stable order lists every position once, in ascending order of key, and positions with
/// equal keys in ascending order.
pub proof fn lemma_stable_order(keys: Seq<usize>, n: nat)
    requires
        n <= keys.len(),
        keys.len() <= usize::MAX,
    ensures
        order_of_first(keys, n).len() == n,
        is_ordered(order_of_first(keys, n), keys, n as int),
        forall|q: usize| q < n ==> #[trigger] order_of_first(keys, n).contains(q),
    decreases n,
{
    if n > 0 {
        let before = order_of_first(keys, (n - 1) as nat);
        lemma_stable_order(keys, (n - 1) as nat);
        lemma_place(before, keys, (n - 1) as usize);
        assert forall|q: usize| q < n implies #[trigger] order_of_first(keys, n).contains(
            q,
        ) by {
            if q < n - 1 {
                assert(before.contains(q));
            }
        }
    }
}

/// Where everything from `at` on is above `p` and what stands before `at` is not, `p` is
/// put in at `at`.
proof fn lemma_place_at(order: Seq<usize>, keys: Seq<usize>, p: usize, at: int)
    requires
        0 <= at <= order.len(),
        forall|k: int| at <= k < order.len() ==> keys[#[trigger] order[k] as int] > keys[p as int],
        at > 0 ==> keys[order[at - 1] as int] <= keys[p as int],
    ensures
        place(order, keys, p) == order.insert(at, p),
    decreases order.len() - at,
{
    if at == order.len() {
        assert(order.insert(at, p) =~= order.push(p));
    } else {
        let front = order.drop_last();
        assert(keys[order[order.len() - 1] as int] > keys[p as int]);
        assert forall|k: int| at <= k < front.len() implies keys[#[trigger] front[k] as int]
            > keys[p as int] by {
            assert(front[k] == order[k]);
        }
        lemma_place_at(front, keys, p, at);
        assert(front.insert(at, p).push(order.last()) =~= order.insert(at, p));
    }
}

/// Computes the stable order of the positions of `keys`.
pub fn sorted_order(keys: &Vec<usize>) -> (order: Vec<usize>)
    ensures
        order@ == stable_order(keys@),
        order@.len() == keys@.len(),
        is_ordered(order@, keys@, keys@.len() as int),
        forall|q: usize| q < keys@.len() ==> #[trigger] order@.contains(q),
{
    let n = keys.len();
    let mut order: Vec<usize> = Vec::new();
    let mut p: usize = 0;
    while p < n
        invariant
            n == keys@.len(),
            p <= n,
            order@ == order_of_first(keys@, p as nat),
        decreases n - p,
    {
        proof {
            lemma_stable_order(keys@, p as nat);
        }
        let mut at: usize = order.len();
        while at > 0 && keys[order[at - 1]] > keys[p]
            invariant
                n == keys@.len(),
                p < n,
                at <= order@.len(),
                is_ordered(order@, keys@, p as int),
                forall|k: int|
                    at <= k < order@.len() ==> keys@[#[trigger] order@[k] as int] > keys@[p as int],
            decreases at,
        {
            at -= 1;
        }
        proof {
            lemma_place_at(order@, keys@, p, at as int);
        }
        order.insert(at, p);
        p += 1;
    }
    proof {
        lemma_stable_order(keys@, n as nat);
    }
    order
}

} // verus!
