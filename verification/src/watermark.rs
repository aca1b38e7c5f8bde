//! Offer ids and the high-water mark (`max_id`) that the collectors keep.
use vstd::prelude::*;
use crate::json::JsonValue;

verus! {

/// Where an item keeps its numeric id.
#[derive(Debug, Clone, Copy, PartialEq, Eq, Structural)]
pub enum IdKey {
    /// An offer's `id` (birbir.uz, olx.uz).
    Offer,
    /// A search item's `catalogCard.productId` (uzum.uz).
    Product,
}

/// The numeric `id` of an offer, when it has one.
pub open spec fn offer_id(v: JsonValue) -> Option<u64> {
    v.spec_u64_at("id"@)
}

/// The `catalogCard.productId` of a search item, when it has one.
pub open spec fn product_id(v: JsonValue) -> Option<u64> {
    match v.spec_get("catalogCard"@) {
        Some(c) => c.spec_u64_at("productId"@),
        None => None,
    }
}

/// The id of an item under a key.
pub open spec fn item_id(key: IdKey, v: JsonValue) -> Option<u64> {
    match key {
        IdKey::Offer => offer_id(v),
        IdKey::Product => product_id(v),
    }
}

/// The ids of the offers that have one, in order.
pub open spec fn ids_of(key: IdKey, offers: Seq<JsonValue>) -> Seq<u64>
    decreases offers.len(),
{
    if offers.len() == 0 {
        Seq::empty()
    } else {
        match item_id(key, offers.last()) {
            Some(id) => ids_of(key, offers.drop_last()).push(id),
            None => ids_of(key, offers.drop_last()),
        }
    }
}

/// The positions of the offers that have an id, in order.
pub open spec fn with_id_positions(key: IdKey, offers: Seq<JsonValue>) -> Seq<usize>
    decreases offers.len(),
{
    if offers.len() == 0 {
        Seq::empty()
    } else {
        match item_id(key, offers.last()) {
            Some(_) => with_id_positions(key, offers.drop_last()).push((offers.len() - 1) as usize),
            None => with_id_positions(key, offers.drop_last()),
        }
    }
}

/// The positions of the offers whose id is above `mark`, in order.
pub open spec fn newer_positions(key: IdKey, offers: Seq<JsonValue>, mark: u64) -> Seq<usize>
    decreases offers.len(),
{
    if offers.len() == 0 {
        Seq::empty()
    } else {
        match item_id(key, offers.last()) {
            Some(id) => if id > mark {
                newer_positions(key, offers.drop_last(), mark).push((offers.len() - 1) as usize)
            } else {
                newer_positions(key, offers.drop_last(), mark)
            },
            None => newer_positions(key, offers.drop_last(), mark),
        }
    }
}

/// The largest of `m` and the ids.
pub open spec fn max_with(m: u64, ids: Seq<u64>) -> u64
    decreases ids.len(),
{
    if ids.len() == 0 {
        m
    } else {
        let rest = max_with(m, ids.drop_last());
        if ids.last() > rest {
            ids.last()
        } else {
            rest
        }
    }
}

/// `max_with` bounds `m` and every id, and is one of them.
pub proof fn lemma_max_with(m: u64, ids: Seq<u64>)
    ensures
        max_with(m, ids) >= m,
        forall|j: int| 0 <= j < ids.len() ==> max_with(m, ids) >= ids[j],
        max_with(m, ids) == m || ids.contains(max_with(m, ids)),
    decreases ids.len(),
{
    if ids.len() > 0 {
        lemma_max_with(m, ids.drop_last());
        assert forall|j: int| 0 <= j < ids.len() implies max_with(m, ids) >= ids[j] by {
            if j < ids.len() - 1 {
                assert(ids[j] == ids.drop_last()[j]);
            }
        }
        if max_with(m, ids) != m {
            if max_with(m, ids) == ids.last() {
                assert(ids[ids.len() - 1] == ids.last());
            } else {
                let k = choose|k: int| 0 <= k < ids.drop_last().len() && ids.drop_last()[k] == max_with(m, ids);
                assert(ids[k] == ids.drop_last()[k]);
            }
        }
    }
}

/// Every id of the offers is at most the mark raised over them.
pub proof fn lemma_ids_below_mark(key: IdKey, m: u64, offers: Seq<JsonValue>)
    ensures
        forall|j: int| 0 <= j < offers.len() && item_id(key, offers[j]) is Some
            ==> item_id(key, offers[j]).unwrap() <= max_with(m, ids_of(key, offers)),
        max_with(m, ids_of(key, offers)) >= m,
    decreases offers.len(),
{
    lemma_max_with(m, ids_of(key, offers));
    if offers.len() > 0 {
        let init = offers.drop_last();
        lemma_ids_below_mark(key, m, init);
        lemma_max_with(m, ids_of(key, init));
        match item_id(key, offers.last()) {
            Some(id) => { lemma_max_with_push(m, ids_of(key, init), id); },
            None => {},
        }
        assert forall|j: int| 0 <= j < offers.len() && item_id(key, offers[j]) is Some
            implies item_id(key, offers[j]).unwrap() <= max_with(m, ids_of(key, offers)) by {
            if j < offers.len() - 1 {
                assert(offers[j] == init[j]);
            } else {
                assert(offers[j] == offers.last());
                let ids = ids_of(key, offers);
                assert(ids.last() == item_id(key, offers.last()).unwrap());
                assert(ids[ids.len() - 1] == ids.last());
            }
        }
    }
}

/// No offer is newer than a mark that is at least every id.
pub proof fn lemma_none_newer(key: IdKey, offers: Seq<JsonValue>, mark: u64)
    requires
        forall|j: int| 0 <= j < offers.len() && item_id(key, offers[j]) is Some
            ==> item_id(key, offers[j]).unwrap() <= mark,
    ensures
        newer_positions(key, offers, mark) == Seq::<usize>::empty(),
    decreases offers.len(),
{
    if offers.len() > 0 {
        let init = offers.drop_last();
        assert forall|j: int| 0 <= j < init.len() && item_id(key, init[j]) is Some
            implies item_id(key, init[j]).unwrap() <= mark by {
            assert(init[j] == offers[j]);
        }
        lemma_none_newer(key, init, mark);
        assert(offers[offers.len() - 1] == offers.last());
    }
}

/// The ids of a list extended by one offer.
pub proof fn lemma_ids_push(key: IdKey, offers: Seq<JsonValue>, i: int)
    requires
        0 <= i < offers.len(),
    ensures
        ids_of(key, offers.take(i + 1)) == match item_id(key, offers[i]) {
            Some(id) => ids_of(key, offers.take(i)).push(id),
            None => ids_of(key, offers.take(i)),
        },
        with_id_positions(key, offers.take(i + 1)) == match item_id(key, offers[i]) {
            Some(_) => with_id_positions(key, offers.take(i)).push(i as usize),
            None => with_id_positions(key, offers.take(i)),
        },
{
    assert(offers.take(i + 1).drop_last() =~= offers.take(i));
    assert(offers.take(i + 1).last() == offers[i]);
}

/// The newer positions of a list extended by one offer.
pub proof fn lemma_newer_push(key: IdKey, offers: Seq<JsonValue>, mark: u64, i: int)
    requires
        0 <= i < offers.len(),
    ensures
        newer_positions(key, offers.take(i + 1), mark) == match item_id(key, offers[i]) {
            Some(id) => if id > mark {
                newer_positions(key, offers.take(i), mark).push(i as usize)
            } else {
                newer_positions(key, offers.take(i), mark)
            },
            None => newer_positions(key, offers.take(i), mark),
        },
{
    assert(offers.take(i + 1).drop_last() =~= offers.take(i));
    assert(offers.take(i + 1).last() == offers[i]);
}

/// When no item is newer than `mark`, raising `mark` over their ids leaves it.
pub proof fn lemma_no_newer_keeps_mark(key: IdKey, offers: Seq<JsonValue>, mark: u64)
    requires
        newer_positions(key, offers, mark).len() == 0,
    ensures
        max_with(mark, ids_of(key, offers)) == mark,
    decreases offers.len(),
{
    if offers.len() > 0 {
        let init = offers.drop_last();
        match item_id(key, offers.last()) {
            Some(id) => {
                lemma_no_newer_keeps_mark(key, init, mark);
                lemma_max_with_push(mark, ids_of(key, init), id);
            },
            None => {
                lemma_no_newer_keeps_mark(key, init, mark);
            },
        }
    }
}

/// The mark after one more id.
pub proof fn lemma_max_with_push(m: u64, ids: Seq<u64>, id: u64)
    ensures
        max_with(m, ids.push(id)) == if id > max_with(m, ids) { id } else { max_with(m, ids) },
{
    assert(ids.push(id).drop_last() =~= ids);
}

/// The positions written as newer than `mark` are exactly the positions of
/// the items whose id is above `mark`, each once, in increasing order.
/// (A page is a `Vec`, so its length fits `usize`.)
pub proof fn lemma_newer_positions_exact(key: IdKey, offers: Seq<JsonValue>, mark: u64)
    requires
        offers.len() <= usize::MAX,
    ensures
        ({
            let np = newer_positions(key, offers, mark);
            &&& forall|j: int| 0 <= j < np.len() ==> 0 <= #[trigger] np[j] < offers.len()
                && (item_id(key, offers[np[j] as int]) matches Some(id) && id > mark)
            &&& forall|a: int, b: int| 0 <= a < b < np.len() ==> np[a] < np[b]
            &&& forall|i: int| 0 <= i < offers.len()
                && (item_id(key, #[trigger] offers[i]) matches Some(id) && id > mark)
                ==> np.contains(i as usize)
        }),
    decreases offers.len(),
{
    if offers.len() > 0 {
        let init = offers.drop_last();
        lemma_newer_positions_exact(key, init, mark);
        let prev = newer_positions(key, init, mark);
        let np = newer_positions(key, offers, mark);
        let n = (offers.len() - 1) as usize;
        assert forall|j: int| 0 <= j < prev.len() implies offers[prev[j] as int] == init[prev[j] as int] by {
            assert(0 <= prev[j] < init.len());
        }
        let newer_last = item_id(key, offers.last()) matches Some(id) && id > mark;
        if newer_last {
            assert(np == prev.push(n));
        } else {
            assert(np == prev);
        }
        assert forall|j: int| 0 <= j < np.len() implies 0 <= #[trigger] np[j] < offers.len()
            && (item_id(key, offers[np[j] as int]) matches Some(id) && id > mark) by {
            if j < prev.len() {
                assert(np[j] == prev[j]);
                assert(0 <= prev[j] < init.len());
            } else {
                assert(np[j] == n);
                assert(offers[n as int] == offers.last());
            }
        }
        assert forall|a: int, b: int| 0 <= a < b < np.len() implies np[a] < np[b] by {
            if b < prev.len() {
                assert(np[a] == prev[a] && np[b] == prev[b]);
            } else {
                assert(np[a] == prev[a]);
                assert(0 <= prev[a] < init.len());
            }
        }
        assert forall|i: int| 0 <= i < offers.len()
            && (item_id(key, #[trigger] offers[i]) matches Some(id) && id > mark)
            implies np.contains(i as usize) by {
            if i < offers.len() - 1 {
                assert(offers[i] == init[i]);
                assert(prev.contains(i as usize));
                let k = choose|k: int| 0 <= k < prev.len() && prev[k] == i as usize;
                assert(np[k] == prev[k]);
            } else {
                assert(offers[i] == offers.last());
                assert(np[np.len() - 1] == n);
            }
        }
    }
}

} // verus!
