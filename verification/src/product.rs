use crate::item::{Item, ItemView};
use itertools::structs::MultiProduct;
use itertools::Itertools;
use vstd::arithmetic::div_mod::{
    lemma_fundamental_div_mod_converse, lemma_mod_pos_bound, lemma_multiply_divide_lt,
};
use vstd::arithmetic::mul::lemma_mul_is_commutative;
use vstd::prelude::*;

verus! {

/// Every way to take one element from each pool, as a list of tuples. The
/// tuples are in lexicographic order of the positions taken: the element
/// from the last pool changes from each tuple to the next, the element from
/// the first pool changes least often. Without pools there is one tuple,
/// the empty one.
pub open spec fn cartesian<T>(pools: Seq<Seq<T>>) -> Seq<Seq<T>>
    decreases pools.len(),
{
    if pools.len() == 0 {
        seq![Seq::empty()]
    } else {
        let heads = cartesian(pools.drop_last());
        let last = pools.last();
        Seq::new(
            heads.len() * last.len(),
            |k: int| heads[k / (last.len() as int)].push(last[k % (last.len() as int)]),
        )
    }
}

/// The number of ways to take one element from each pool: the product of
/// the pools' sizes.
pub open spec fn count<T>(pools: Seq<Seq<T>>) -> nat
    decreases pools.len(),
{
    if pools.len() == 0 {
        1
    } else {
        count(pools.drop_last()) * pools.last().len()
    }
}

/// Whether `tuple` takes one element from each pool, in the order of the
/// pools.
pub open spec fn is_choice<T>(tuple: Seq<T>, pools: Seq<Seq<T>>) -> bool {
    &&& tuple.len() == pools.len()
    &&& forall|i: int| 0 <= i < tuple.len() ==> (#[trigger] pools[i]).contains(tuple[i])
}

/// The enumeration has as many tuples as there are ways to choose.
pub proof fn lemma_cartesian_len<T>(pools: Seq<Seq<T>>)
    ensures
        cartesian(pools).len() == count(pools),
    decreases pools.len(),
{
    if pools.len() > 0 {
        lemma_cartesian_len(pools.drop_last());
    }
}

/// There is something to choose exactly when no pool is empty.
pub proof fn lemma_count_positive<T>(pools: Seq<Seq<T>>)
    ensures
        count(pools) > 0 <==> forall|i: int| 0 <= i < pools.len() ==> (#[trigger] pools[i]).len() > 0,
    decreases pools.len(),
{
    if pools.len() > 0 {
        let init = pools.drop_last();
        lemma_count_positive(init);
        let a = count(init) as int;
        let b = pools.last().len() as int;
        assert(a * b > 0 <==> a > 0 && b > 0) by (nonlinear_arith)
            requires
                a >= 0,
                b >= 0,
        ;
        if count(pools) > 0 {
            assert forall|i: int| 0 <= i < pools.len() implies (#[trigger] pools[i]).len() > 0 by {
                if i < pools.len() - 1 {
                    assert(pools[i] == init[i]);
                }
            }
        } else if a > 0 {
            assert(pools[pools.len() - 1].len() == 0);
        } else {
            let i = choose|i: int| 0 <= i < init.len() && !((#[trigger] init[i]).len() > 0);
            assert(pools[i] == init[i]);
        }
    }
}

/// Every tuple of the enumeration takes one element from each pool.
pub proof fn lemma_cartesian_sound<T>(pools: Seq<Seq<T>>, k: int)
    requires
        0 <= k < cartesian(pools).len(),
    ensures
        is_choice(cartesian(pools)[k], pools),
    decreases pools.len(),
{
    if pools.len() > 0 {
        let init = pools.drop_last();
        let heads = cartesian(init);
        let last = pools.last();
        let m = last.len() as int;
        assert(m > 0) by (nonlinear_arith)
            requires
                0 <= k < heads.len() * m,
                m >= 0,
        ;
        lemma_mul_is_commutative(heads.len() as int, m);
        lemma_multiply_divide_lt(k, m, heads.len() as int);
        lemma_mod_pos_bound(k, m);
        assert(0 <= k / m) by (nonlinear_arith)
            requires
                0 <= k,
                0 < m,
        ;
        lemma_cartesian_sound(init, k / m);
        let tuple = cartesian(pools)[k];
        assert(tuple == heads[k / m].push(last[k % m]));
        assert forall|i: int| 0 <= i < tuple.len() implies (#[trigger] pools[i]).contains(
            tuple[i],
        ) by {
            if i < pools.len() - 1 {
                assert(pools[i] == init[i]);
                assert(tuple[i] == heads[k / m][i]);
            } else {
                assert(tuple[i] == last[k % m]);
            }
        }
    }
}

/// Every way to take one element from each pool is in the enumeration.
pub proof fn lemma_cartesian_complete<T>(pools: Seq<Seq<T>>, tuple: Seq<T>) -> (k: int)
    requires
        is_choice(tuple, pools),
    ensures
        0 <= k < cartesian(pools).len(),
        cartesian(pools)[k] == tuple,
    decreases pools.len(),
{
    if pools.len() == 0 {
        assert(tuple =~= Seq::empty());
        0
    } else {
        let init = pools.drop_last();
        let heads = cartesian(init);
        let last = pools.last();
        let m = last.len() as int;
        assert forall|i: int| 0 <= i < tuple.drop_last().len() implies (#[trigger] init[i]).contains(
            tuple.drop_last()[i],
        ) by {
            assert(pools[i] == init[i]);
        }
        let a = lemma_cartesian_complete(init, tuple.drop_last());
        assert(pools[pools.len() - 1].contains(tuple[pools.len() - 1]));
        let b = choose|b: int| 0 <= b < last.len() && last[b] == tuple.last();
        let k = a * m + b;
        lemma_fundamental_div_mod_converse(k, m, a, b);
        assert(0 <= k < heads.len() * m) by (nonlinear_arith)
            requires
                0 <= a < heads.len(),
                0 <= b < m,
                k == a * m + b,
        ;
        assert(cartesian(pools)[k] =~= tuple);
        k
    }
}

/// Whether `picks` names a position in each pool, in the order of the pools.
pub open spec fn is_pick<T>(picks: Seq<int>, pools: Seq<Seq<T>>) -> bool {
    &&& picks.len() == pools.len()
    &&& forall|i: int| 0 <= i < picks.len() ==> 0 <= #[trigger] picks[i] < pools[i].len()
}

/// The tuple of the elements at the picked positions.
pub open spec fn picked<T>(picks: Seq<int>, pools: Seq<Seq<T>>) -> Seq<T> {
    Seq::new(pools.len(), |i: int| pools[i][picks[i]])
}

/// The place of a pick in the enumeration: the picked positions read as
/// the digits of a number, the size of each pool being the base of its
/// digit, the last pool's digit counting least.
pub open spec fn rank<T>(picks: Seq<int>, pools: Seq<Seq<T>>) -> int
    decreases pools.len(),
{
    if pools.len() == 0 {
        0
    } else {
        rank(picks.drop_last(), pools.drop_last()) * pools.last().len() + picks.last()
    }
}

/// The enumeration holds the tuple of every pick, at the place of its rank.
pub proof fn lemma_rank_places<T>(picks: Seq<int>, pools: Seq<Seq<T>>)
    requires
        is_pick(picks, pools),
    ensures
        0 <= rank(picks, pools) < cartesian(pools).len(),
        cartesian(pools)[rank(picks, pools)] == picked(picks, pools),
    decreases pools.len(),
{
    if pools.len() == 0 {
        assert(picked(picks, pools) =~= Seq::<T>::empty());
    } else {
        let init = pools.drop_last();
        let heads = cartesian(init);
        let m = pools.last().len() as int;
        assert forall|i: int| 0 <= i < picks.drop_last().len() implies 0 <= #[trigger] picks.drop_last()[i]
            < init[i].len() by {
            assert(picks.drop_last()[i] == picks[i]);
            assert(init[i] == pools[i]);
        }
        lemma_rank_places(picks.drop_last(), init);
        let a = rank(picks.drop_last(), init);
        let b = picks.last();
        assert(0 <= picks[pools.len() - 1] < pools[pools.len() - 1].len());
        let k = a * m + b;
        lemma_fundamental_div_mod_converse(k, m, a, b);
        assert(0 <= k < heads.len() * m) by (nonlinear_arith)
            requires
                0 <= a < heads.len(),
                0 <= b < m,
                k == a * m + b,
        ;
        assert(picked(picks.drop_last(), init).push(pools.last()[b]) =~= picked(picks, pools));
    }
}

/// Picks that differ have different ranks: no pick is in the enumeration
/// twice.
pub proof fn lemma_rank_injective<T>(first: Seq<int>, second: Seq<int>, pools: Seq<Seq<T>>)
    requires
        is_pick(first, pools),
        is_pick(second, pools),
        rank(first, pools) == rank(second, pools),
    ensures
        first == second,
    decreases pools.len(),
{
    if pools.len() == 0 {
        assert(first =~= second);
    } else {
        let init = pools.drop_last();
        let m = pools.last().len() as int;
        assert forall|i: int| 0 <= i < init.len() implies 0 <= #[trigger] first.drop_last()[i]
            < init[i].len() && 0 <= #[trigger] second.drop_last()[i] < init[i].len() by {
            assert(first.drop_last()[i] == first[i]);
            assert(second.drop_last()[i] == second[i]);
            assert(init[i] == pools[i]);
        }
        assert(0 <= first[pools.len() - 1] < pools[pools.len() - 1].len());
        assert(0 <= second[pools.len() - 1] < pools[pools.len() - 1].len());
        let k = rank(first, pools);
        lemma_fundamental_div_mod_converse(k, m, rank(first.drop_last(), init), first.last());
        lemma_fundamental_div_mod_converse(k, m, rank(second.drop_last(), init), second.last());
        lemma_rank_injective(first.drop_last(), second.drop_last(), init);
        assert(first =~= first.drop_last().push(first.last()));
        assert(second =~= second.drop_last().push(second.last()));
    }
}

/// Every place of the enumeration is the rank of a pick: the enumeration
/// holds nothing but the tuples of picks.
pub proof fn lemma_rank_onto<T>(pools: Seq<Seq<T>>, k: int) -> (picks: Seq<int>)
    requires
        0 <= k < cartesian(pools).len(),
    ensures
        is_pick(picks, pools),
        rank(picks, pools) == k,
    decreases pools.len(),
{
    if pools.len() == 0 {
        Seq::empty()
    } else {
        let init = pools.drop_last();
        let heads = cartesian(init);
        let m = pools.last().len() as int;
        assert(m > 0) by (nonlinear_arith)
            requires
                0 <= k < heads.len() * m,
                m >= 0,
        ;
        lemma_mul_is_commutative(heads.len() as int, m);
        lemma_multiply_divide_lt(k, m, heads.len() as int);
        lemma_mod_pos_bound(k, m);
        assert(0 <= k / m) by (nonlinear_arith)
            requires
                0 <= k,
                0 < m,
        ;
        let before = lemma_rank_onto(init, k / m);
        let picks = before.push(k % m);
        assert(picks.drop_last() =~= before);
        assert forall|i: int| 0 <= i < picks.len() implies 0 <= #[trigger] picks[i]
            < pools[i].len() by {
            if i < init.len() {
                assert(picks[i] == before[i]);
                assert(init[i] == pools[i]);
            }
        }
        assert(k == (k / m) * m + k % m) by {
            vstd::arithmetic::div_mod::lemma_fundamental_div_mod(k, m);
            lemma_mul_is_commutative(k / m, m);
        }
        picks
    }
}

/// While no pool is empty, the first pools alone offer no more ways to
/// choose than all of them.
pub proof fn lemma_count_prefix<T>(pools: Seq<Seq<T>>, n: int)
    requires
        0 <= n <= pools.len(),
        forall|i: int| 0 <= i < pools.len() ==> (#[trigger] pools[i]).len() > 0,
    ensures
        count(pools.take(n)) <= count(pools),
    decreases pools.len(),
{
    if n == pools.len() {
        assert(pools.take(n) == pools);
    } else {
        let init = pools.drop_last();
        assert forall|i: int| 0 <= i < init.len() implies (#[trigger] init[i]).len() > 0 by {
            assert(init[i] == pools[i]);
        }
        lemma_count_prefix(init, n);
        assert(init.take(n) == pools.take(n));
        let a = count(init) as int;
        let b = pools.last().len() as int;
        assert(pools[pools.len() - 1].len() > 0);
        assert(a <= a * b) by (nonlinear_arith)
            requires
                a >= 0,
                b >= 1,
        ;
    }
}

/// The number of ways to take one item from each pool, unless it is too
/// large for a `usize`.
pub fn count_of(pools: &Vec<&Vec<Item>>) -> (ways: Option<usize>)
    ensures
        match ways {
            Some(ways) => ways == count(pools.deep_view()),
            None => count(pools.deep_view()) > usize::MAX,
        },
{
    let ghost given = pools.deep_view();
    let mut i: usize = 0;
    while i < pools.len()
        invariant
            i <= pools.len(),
            given == pools.deep_view(),
            forall|j: int| 0 <= j < i ==> (#[trigger] given[j]).len() > 0,
        decreases pools.len() - i,
    {
        if pools[i].len() == 0 {
            proof {
                assert(given[i as int].len() == 0);
                lemma_count_positive(given);
            }
            return Some(0);
        }
        assert(given[i as int].len() == pools[i as int].len());
        i = i + 1;
    }
    let mut ways: usize = 1;
    i = 0;
    while i < pools.len()
        invariant
            i <= pools.len(),
            given == pools.deep_view(),
            forall|j: int| 0 <= j < given.len() ==> (#[trigger] given[j]).len() > 0,
            ways == count(given.take(i as int)),
        decreases pools.len() - i,
    {
        proof {
            assert(given.take(i + 1).drop_last() == given.take(i as int));
            assert(given.take(i + 1).last().len() == pools[i as int].len());
            lemma_count_prefix(given, i + 1);
        }
        match ways.checked_mul(pools[i].len()) {
            Some(more) => {
                ways = more;
            },
            None => {
                return None;
            },
        }
        i = i + 1;
    }
    assert(given.take(i as int) == given);
    Some(ways)
}

/// The tuples that an enumeration has still to give, first the next one.
pub uninterp spec fn remaining(combinations: Combinations) -> Seq<Seq<ItemView>>;

/// A running enumeration of the ways to take one item from each of a list
/// of pools. It holds an `itertools::structs::MultiProduct` over the pools'
/// items.
#[verifier::external_body]
pub struct Combinations<'a> {
    inner: MultiProduct<std::slice::Iter<'a, Item>>,
}

impl<'a> Combinations<'a> {
    /// Starts an enumeration with `itertools::Itertools::multi_cartesian_product`,
    /// called on the iterators over the pools. It is taken to give the tuples
    /// of `cartesian` in their order: one tuple for each way to choose, the
    /// last pool's element changing fastest; nothing if a pool is empty; the
    /// empty tuple alone if there are no pools.
    #[verifier::external_body]
    pub(crate) fn over(pools: &Vec<&'a Vec<Item>>) -> (combinations: Combinations<'a>)
        ensures
            remaining(combinations) == cartesian(pools.deep_view()),
    {
        Combinations { inner: pools.iter().map(|pool| pool.iter()).multi_cartesian_product() }
    }

    /// Calls `Iterator::next` of `itertools::structs::MultiProduct`. It is
    /// taken to hand out the first of the remaining tuples and to leave the
    /// others, and to hand out nothing, and leave nothing, once none remains.
    #[verifier::external_body]
    pub(crate) fn advance(&mut self) -> (tuple: Option<Vec<&'a Item>>)
        ensures
            match tuple {
                Some(items) => {
                    &&& remaining(*old(self)).len() > 0
                    &&& items.deep_view() == remaining(*old(self))[0]
                    &&& remaining(*final(self)) == remaining(*old(self)).drop_first()
                },
                None => {
                    &&& remaining(*old(self)).len() == 0
                    &&& remaining(*final(self)).len() == 0
                },
            },
    {
        self.inner.next()
    }
}

} // verus!
