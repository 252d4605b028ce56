use crate::error::Error;
use crate::item::{Item, ItemView};
use crate::itemset::{total_value, ItemSet, ItemSetView};
use crate::product::{
    cartesian, count, is_choice, lemma_cartesian_complete, lemma_cartesian_len,
    lemma_cartesian_sound, remaining, Combinations,
};
use crate::slot::{slot_sequence, SLOT_COUNT};
use vstd::prelude::*;

verus! {

/// The value that a tuple of items has as a set: the sum of the scores of
/// the items that get a slot.
pub open spec fn set_value(tuple: Seq<ItemView>) -> int {
    total_value(tuple.take(SLOT_COUNT as int))
}

/// Whether the tuple at position `k` is the one that a search keeps: no
/// tuple has a greater value, and every tuple after it has a smaller one.
/// Of several tuples with the greatest value this is the last.
pub open spec fn is_last_best(tuples: Seq<Seq<ItemView>>, k: int) -> bool {
    &&& 0 <= k < tuples.len()
    &&& forall|j: int| 0 <= j < tuples.len() ==> set_value(#[trigger] tuples[j]) <= set_value(tuples[k])
    &&& forall|j: int| k < j < tuples.len() ==> set_value(#[trigger] tuples[j]) < set_value(tuples[k])
}

/// Whether `set` is the best way to give each slot an item from its pool:
/// it takes one item from each pool, its value is the sum of their scores,
/// no other way to choose has a greater sum, and of the ways that have the
/// same sum it is the last in the order of `cartesian`.
pub open spec fn is_best_set(set: ItemSetView, pools: Seq<Seq<ItemView>>) -> bool {
    &&& is_choice(set.items, pools)
    &&& set.value == total_value(set.items)
    &&& forall|other: Seq<ItemView>| #[trigger]
        is_choice(other, pools) ==> total_value(other) <= set.value
    &&& exists|k: int|
        #![auto]
        is_last_best(cartesian(pools), k) && set.items == cartesian(pools)[k]
}

/// With one pool for each slot, the tuple that a search keeps is the best
/// set.
pub proof fn lemma_last_best_is_best_set(pools: Seq<Seq<ItemView>>, k: int)
    requires
        pools.len() == SLOT_COUNT,
        is_last_best(cartesian(pools), k),
    ensures
        is_best_set(
            ItemSetView { value: total_value(cartesian(pools)[k]), items: cartesian(pools)[k] },
            pools,
        ),
{
    let tuples = cartesian(pools);
    lemma_cartesian_sound(pools, k);
    assert(tuples[k].take(SLOT_COUNT as int) == tuples[k]);
    assert forall|other: Seq<ItemView>| #[trigger] is_choice(other, pools) implies total_value(other)
        <= total_value(tuples[k]) by {
        let j = lemma_cartesian_complete(pools, other);
        assert(other.take(SLOT_COUNT as int) == other);
        assert(set_value(tuples[j]) <= set_value(tuples[k]));
    }
}

/// Only one tuple is the one that a search keeps.
pub proof fn lemma_last_best_is_unique(tuples: Seq<Seq<ItemView>>, j: int, k: int)
    requires
        is_last_best(tuples, j),
        is_last_best(tuples, k),
    ensures
        j == k,
{
    if j < k {
        assert(set_value(tuples[k]) < set_value(tuples[j]));
        assert(set_value(tuples[j]) <= set_value(tuples[k]));
    } else if k < j {
        assert(set_value(tuples[j]) < set_value(tuples[k]));
        assert(set_value(tuples[k]) <= set_value(tuples[j]));
    }
}

/// Goes through every way to take one item from each pool, in the order of
/// `cartesian`, makes a set of each, and keeps the set of the greatest
/// value; of several such sets, the last. The pools stand for the slots in
/// the order of the slot sequence.
///
/// Where a pool is empty there is nothing to choose from, which is
/// `Error::NoCombinations`. Where there are fewer pools than slots, no
/// tuple fills the slots, which is `Error::MissingItem` with the first slot
/// left empty.
pub fn best_of<'a>(pools: &Vec<&'a Vec<Item>>) -> (r: Result<ItemSet<'a>, Error>)
    ensures
        match r {
            Ok(set) => {
                &&& count(pools.deep_view()) > 0
                &&& pools.len() >= SLOT_COUNT
                &&& exists|k: int|
                    #![auto]
                    is_last_best(cartesian(pools.deep_view()), k) && set@.items == cartesian(
                        pools.deep_view(),
                    )[k].take(SLOT_COUNT as int)
                &&& set@.value == total_value(set@.items)
            },
            Err(Error::NoCombinations) => count(pools.deep_view()) == 0,
            Err(Error::MissingItem(slot)) => {
                &&& count(pools.deep_view()) > 0
                &&& pools.len() < SLOT_COUNT
                &&& slot == slot_sequence()[pools.len() as int]
            },
            Err(_) => false,
        },
{
    let ghost tuples = cartesian(pools.deep_view());
    proof {
        lemma_cartesian_len(pools.deep_view());
    }
    let mut combinations = Combinations::over(pools);
    let mut best: Option<ItemSet<'a>> = None;
    let ghost mut seen: int = 0;
    let ghost mut at: int = 0;
    assert(tuples.skip(0) == tuples);
    loop
        invariant
            tuples == cartesian(pools.deep_view()),
            tuples.len() == count(pools.deep_view()),
            0 <= seen <= tuples.len(),
            remaining(combinations) == tuples.skip(seen),
            best is None <==> seen == 0,
            best matches Some(set) ==> {
                &&& pools.len() >= SLOT_COUNT
                &&& is_last_best(tuples.take(seen), at)
                &&& set@.items == tuples[at].take(SLOT_COUNT as int)
                &&& set@.value == total_value(set@.items)
            },
        decreases tuples.len() - seen,
    {
        match combinations.advance() {
            None => {
                assert(seen == tuples.len());
                assert(tuples.take(seen) == tuples);
                return match best {
                    Some(set) => Ok(set),
                    None => Err(Error::NoCombinations),
                };
            },
            Some(items) => {
                proof {
                    assert(items.deep_view() == tuples[seen]);
                    lemma_cartesian_sound(pools.deep_view(), seen);
                    assert(tuples.skip(seen).drop_first() == tuples.skip(seen + 1));
                }
                match ItemSet::try_from(items) {
                    Err(e) => {
                        return Err(e);
                    },
                    Ok(set) => {
                        let keep = match &best {
                            Some(held) => set.value() < held.value(),
                            None => false,
                        };
                        proof {
                            let before = tuples.take(seen);
                            let after = tuples.take(seen + 1);
                            assert(after[seen] == tuples[seen]);
                            assert forall|j: int| 0 <= j < seen implies #[trigger] after[j]
                                == before[j] by {}
                            if keep {
                                assert(is_last_best(after, at));
                            } else {
                                assert(is_last_best(after, seen));
                                at = seen;
                            }
                            seen = seen + 1;
                        }
                        if !keep {
                            best = Some(set);
                        }
                    },
                }
            },
        }
    }
}

} // verus!
