//! Stable ordering by a key, largest first.
//!
//! The order is given as the list of positions of the items: the item
//! with the largest key comes first, and items with equal keys keep the
//! order they came in (as a stable sort by the reversed key does).

use vstd::prelude::*;

verus! {

/// Where an item with key `k` goes in `order` (a list of positions into
/// `keys`, largest key first): before the first item whose key is
/// smaller, so after every item whose key is at least `k`.
pub open spec fn insert_pos(order: Seq<int>, keys: Seq<u128>, k: u128) -> int
    decreases order.len(),
{
    if order.len() == 0 {
        0
    } else if keys[order[0]] < k {
        0
    } else {
        1 + insert_pos(order.drop_first(), keys, k)
    }
}

/// The positions of `keys`, largest key first, equal keys in the order
/// they came in.
pub open spec fn order_desc(keys: Seq<u128>) -> Seq<int>
    decreases keys.len(),
{
    if keys.len() == 0 {
        Seq::empty()
    } else {
        let o = order_desc(keys.drop_last());
        let j = keys.len() - 1;
        o.insert(insert_pos(o, keys, keys[j]), j)
    }
}

/// `order` lists each position of `0..n` exactly once.
pub open spec fn is_permutation_of(order: Seq<int>, n: int) -> bool {
    &&& order.len() == n
    &&& forall|p: int| 0 <= p < n ==> 0 <= #[trigger] order[p] < n
    &&& forall|p: int, q: int| 0 <= p < q < n ==> #[trigger] order[p] != #[trigger] order[q]
}

/// In `order`, keys never grow, and equal keys keep their input order.
pub open spec fn is_stable_desc(order: Seq<int>, keys: Seq<u128>) -> bool {
    forall|p: int, q: int|
        0 <= p < q < order.len() ==> keys[#[trigger] order[p]] > keys[#[trigger] order[q]] || (
        keys[order[p]] == keys[order[q]] && order[p] < order[q])
}

proof fn lemma_insert_pos(order: Seq<int>, keys: Seq<u128>, k: u128)
    requires
        forall|p: int, q: int|
            0 <= p < q < order.len() ==> keys[#[trigger] order[p]] >= keys[#[trigger] order[q]],
    ensures
        0 <= insert_pos(order, keys, k) <= order.len(),
        forall|q: int| 0 <= q < insert_pos(order, keys, k) ==> keys[#[trigger] order[q]] >= k,
        forall|q: int|
            insert_pos(order, keys, k) <= q < order.len() ==> keys[#[trigger] order[q]] < k,
    decreases order.len(),
{
    if order.len() > 0 {
        if keys[order[0]] < k {
            assert forall|q: int| 0 <= q < order.len() implies keys[#[trigger] order[q]] < k by {
                if q > 0 {
                    assert(keys[order[0]] >= keys[order[q]]);
                }
            }
        } else {
            let rest = order.drop_first();
            assert forall|p: int, q: int| 0 <= p < q < rest.len() implies keys[#[trigger] rest[p]]
                >= keys[#[trigger] rest[q]] by {
                assert(rest[p] == order[p + 1] && rest[q] == order[q + 1]);
            }
            lemma_insert_pos(rest, keys, k);
            assert forall|q: int| 0 <= q < insert_pos(order, keys, k) implies keys[#[trigger] order[q]]
                >= k by {
                if q > 0 {
                    assert(order[q] == rest[q - 1]);
                }
            }
            assert forall|q: int|
                insert_pos(order, keys, k) <= q < order.len() implies keys[#[trigger] order[q]]
                < k by {
                assert(order[q] == rest[q - 1]);
            }
        }
    }
}

/// The order lists every position once, largest key first, and equal
/// keys keep the order they came in: it is what a stable sort by key,
/// largest first, makes of the items.
pub proof fn lemma_order_desc(keys: Seq<u128>)
    ensures
        is_permutation_of(order_desc(keys), keys.len() as int),
        is_stable_desc(order_desc(keys), keys),
    decreases keys.len(),
{
    if keys.len() > 0 {
        let prev = keys.drop_last();
        lemma_order_desc(prev);
        let o = order_desc(prev);
        let j = keys.len() - 1;
        let k = keys[j];
        assert forall|p: int| 0 <= p < o.len() implies keys[#[trigger] o[p]] == prev[o[p]] by {}
        assert forall|p: int, q: int| 0 <= p < q < o.len() implies keys[#[trigger] o[p]]
            >= keys[#[trigger] o[q]] by {
            assert(prev[o[p]] > prev[o[q]] || prev[o[p]] == prev[o[q]]);
        }
        lemma_insert_pos(o, keys, k);
        let pos = insert_pos(o, keys, k);
        let n = o.insert(pos, j);
        assert(n == order_desc(keys));
        assert forall|p: int| 0 <= p < n.len() implies (p < pos ==> #[trigger] n[p] == o[p]) && (p
            == pos ==> n[p] == j) && (p > pos ==> n[p] == o[p - 1]) by {}
        assert forall|p: int| 0 <= p < keys.len() implies 0 <= #[trigger] n[p] < keys.len() by {
            if p < pos {
                assert(n[p] == o[p]);
            } else if p > pos {
                assert(n[p] == o[p - 1]);
            }
        }
        assert forall|p: int, q: int| 0 <= p < q < keys.len() implies #[trigger] n[p]
            != #[trigger] n[q] by {
            if p < pos && q < pos {
                assert(n[p] == o[p] && n[q] == o[q]);
            } else if p < pos && q == pos {
                assert(n[p] == o[p]);
            } else if p < pos && q > pos {
                assert(n[p] == o[p] && n[q] == o[q - 1]);
            } else if p == pos {
                assert(n[q] == o[q - 1]);
            } else {
                assert(n[p] == o[p - 1] && n[q] == o[q - 1]);
            }
        }
        assert forall|p: int, q: int| 0 <= p < q < n.len() implies keys[#[trigger] n[p]]
            > keys[#[trigger] n[q]] || (keys[n[p]] == keys[n[q]] && n[p] < n[q]) by {
            if p < pos && q < pos {
                assert(n[p] == o[p] && n[q] == o[q]);
                assert(prev[o[p]] > prev[o[q]] || (prev[o[p]] == prev[o[q]] && o[p] < o[q]));
            } else if p < pos && q == pos {
                assert(n[p] == o[p]);
                assert(keys[o[p]] >= k);
            } else if p < pos && q > pos {
                assert(n[p] == o[p] && n[q] == o[q - 1]);
                assert(keys[o[p]] >= k && keys[o[q - 1]] < k);
            } else if p == pos {
                assert(n[q] == o[q - 1]);
                assert(keys[o[q - 1]] < k);
            } else {
                assert(n[p] == o[p - 1] && n[q] == o[q - 1]);
                assert(prev[o[p - 1]] > prev[o[q - 1]] || (prev[o[p - 1]] == prev[o[q - 1]] && o[p
                    - 1] < o[q - 1]));
            }
        }
    }
}

/// The positions of `keys`, largest key first, equal keys in the order
/// they came in.
pub fn stable_order_desc(keys: &[u128]) -> (r: Vec<usize>)
    ensures
        r@.len() == keys@.len(),
        forall|p: int| 0 <= p < r@.len() ==> #[trigger] r@[p] == order_desc(keys@)[p],
{
    let mut order: Vec<usize> = Vec::new();
    let mut j: usize = 0;
    while j < keys.len()
        invariant
            j <= keys.len(),
            order@.len() == j,
            order_desc(keys@.subrange(0, j as int)).len() == j,
            forall|p: int| 0 <= p < j ==> #[trigger] order@[p] == order_desc(
                keys@.subrange(0, j as int),
            )[p],
        decreases keys.len() - j,
    {
        let ghost ks = keys@.subrange(0, j + 1);
        let ghost o = order_desc(keys@.subrange(0, j as int));
        proof {
            assert(ks.drop_last() =~= keys@.subrange(0, j as int));
            lemma_order_desc(keys@.subrange(0, j as int));
            assert forall|p: int| 0 <= p < o.len() implies #[trigger] ks[o[p]] == keys@[o[p]] by {}
            assert forall|p: int, q: int| 0 <= p < q < o.len() implies ks[#[trigger] o[p]]
                >= ks[#[trigger] o[q]] by {
                assert(keys@.subrange(0, j as int)[o[p]] == ks[o[p]]);
                assert(keys@.subrange(0, j as int)[o[q]] == ks[o[q]]);
            }
            lemma_insert_pos(o, ks, keys@[j as int]);
        }
        let k = keys[j];
        let mut pos: usize = 0;
        while pos < order.len() && keys[order[pos]] >= k
            invariant
                order@.len() == j,
                j < keys.len(),
                k == keys@[j as int],
                o.len() == j,
                forall|p: int| 0 <= p < j ==> #[trigger] order@[p] == o[p],
                forall|p: int| 0 <= p < o.len() ==> 0 <= #[trigger] o[p] < j,
                ks == keys@.subrange(0, j + 1),
                pos <= order.len(),
                pos <= insert_pos(o, ks, k),
                forall|q: int| 0 <= q < insert_pos(o, ks, k) ==> ks[#[trigger] o[q]] >= k,
                forall|q: int| insert_pos(o, ks, k) <= q < o.len() ==> ks[#[trigger] o[q]] < k,
                insert_pos(o, ks, k) <= o.len(),
            decreases order.len() - pos,
        {
            assert(ks[o[pos as int]] == keys@[order@[pos as int] as int]);
            pos = pos + 1;
        }
        proof {
            if pos < order.len() {
                assert(ks[o[pos as int]] == keys@[order@[pos as int] as int]);
            }
            assert(pos == insert_pos(o, ks, k));
        }
        order.insert(pos, j);
        j = j + 1;
        proof {
            assert(order_desc(ks) == o.insert(pos as int, (j - 1) as int));
        }
    }
    assert(keys@.subrange(0, j as int) =~= keys@);
    order
}

} // verus!
