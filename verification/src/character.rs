use crate::error::Error;
use crate::item::{lemma_ordinal_indexes_all, Item, ItemView, Location, LOCATION_COUNT};
use crate::itemset::{lemma_total_of_worthless, total_value, ItemSet};
use crate::itemset::ItemSetView;
use crate::optimizer::{best_of, is_best_set, is_last_best, lemma_last_best_is_best_set};
use crate::product::{cartesian, count, count_of, lemma_count_positive};
use crate::slot::{slot_sequence, Slot, SLOT_COUNT};
use vstd::prelude::*;

verus! {

/// Moral alignment of a character. Items may forbid some alignments.
#[derive(Clone, Copy, Debug, PartialEq, Eq, Structural)]
pub enum Align {
    Evil,
    Good,
    Neutral,
}

/// Profession of a character. Items may forbid some classes.
#[derive(Clone, Copy, Debug, PartialEq, Eq, Structural)]
pub enum Class {
    Cleric,
    Mage,
    Thief,
    Warrior,
}

/// Whether a character of the given level, class and alignment may use the
/// item: the level reaches the item's, and the item forbids neither the
/// alignment nor the class.
pub open spec fn may_use(level: nat, class: Class, align: Align, item: ItemView) -> bool {
    &&& level >= item.level
    &&& !item.align_restrictions.contains(align)
    &&& !item.class_restrictions.contains(class)
}

/// The test that an item passes to enter the pool of `location`: the
/// character may use it, and it lists the location.
pub open spec fn fits(level: nat, class: Class, align: Align, location: Location) -> spec_fn(
    ItemView,
) -> bool {
    |item: ItemView| may_use(level, class, align, item) && item.locations.contains(location)
}

/// The items of the catalog that the character may use and that go at
/// `location`, in the order of the catalog.
pub open spec fn usable_at(
    level: nat,
    class: Class,
    align: Align,
    catalog: Seq<ItemView>,
    location: Location,
) -> Seq<ItemView> {
    catalog.filter(fits(level, class, align, location))
}

/// The pool of a location: the usable items that go there or, if there is
/// none, the placeholder alone.
pub open spec fn pool_at(
    level: nat,
    class: Class,
    align: Align,
    catalog: Seq<ItemView>,
    location: Location,
) -> Seq<ItemView> {
    let usable = usable_at(level, class, align, catalog, location);
    if usable.len() == 0 {
        seq![ItemView::placeholder()]
    } else {
        usable
    }
}

/// Mathematical content of a [`Character`]: who it is, and for each
/// location, by its ordinal, the pool of items to choose from.
pub struct CharacterView {
    pub level: nat,
    pub class: Class,
    pub align: Align,
    pub pools: Seq<Seq<ItemView>>,
}

impl CharacterView {
    /// The pool of a location.
    pub open spec fn pool(self, location: Location) -> Seq<ItemView> {
        self.pools[location.ordinal()]
    }

    /// The pools of the slots, in the order of the slot sequence. Slots at
    /// the same location have the same pool.
    pub open spec fn slot_pools(self) -> Seq<Seq<ItemView>> {
        Seq::new(SLOT_COUNT as nat, |i: int| self.pool(slot_sequence()[i].location))
    }

    /// Whether the pools are those that the catalog gives a character of
    /// this level, class and alignment.
    pub open spec fn made_from(self, catalog: Seq<ItemView>) -> bool {
        &&& self.pools.len() == LOCATION_COUNT
        &&& forall|location: Location| #[trigger]
            self.pool(location) == pool_at(self.level, self.class, self.align, catalog, location)
    }
}

/// Every item of a pool lists the pool's location and may be used by the
/// character.
pub proof fn lemma_pool_items_fit(
    character: CharacterView,
    catalog: Seq<ItemView>,
    location: Location,
    i: int,
)
    requires
        character.made_from(catalog),
        0 <= i < character.pool(location).len(),
    ensures
        may_use(character.level, character.class, character.align, character.pool(location)[i]),
        character.pool(location)[i].locations.contains(location),
{
    let test = fits(character.level, character.class, character.align, location);
    let pool = character.pool(location);
    assert(pool == pool_at(character.level, character.class, character.align, catalog, location));
    if catalog.filter(test).len() == 0 {
        lemma_ordinal_indexes_all(location);
        assert(pool[i] == ItemView::placeholder());
    } else {
        catalog.lemma_filter_pred(test, i);
        assert(test(pool[i]));
    }
}

/// An item above the character's level is in none of its pools.
pub proof fn lemma_level_excludes(
    character: CharacterView,
    catalog: Seq<ItemView>,
    item: ItemView,
    location: Location,
)
    requires
        character.made_from(catalog),
        item.level > character.level,
    ensures
        !character.pool(location).contains(item),
{
    if character.pool(location).contains(item) {
        let i = choose|i: int|
            0 <= i < character.pool(location).len() && character.pool(location)[i] == item;
        lemma_pool_items_fit(character, catalog, location, i);
    }
}

/// An item that forbids the character's alignment or its class is in none
/// of its pools.
pub proof fn lemma_restriction_excludes(
    character: CharacterView,
    catalog: Seq<ItemView>,
    item: ItemView,
    location: Location,
)
    requires
        character.made_from(catalog),
        item.align_restrictions.contains(character.align) || item.class_restrictions.contains(
            character.class,
        ),
    ensures
        !character.pool(location).contains(item),
{
    if character.pool(location).contains(item) {
        let i = choose|i: int|
            0 <= i < character.pool(location).len() && character.pool(location)[i] == item;
        lemma_pool_items_fit(character, catalog, location, i);
    }
}

/// Every item of the best set lists the location of its slot and may be
/// used by the character.
pub proof fn lemma_best_set_items_fit(
    character: CharacterView,
    catalog: Seq<ItemView>,
    set: ItemSetView,
    i: int,
)
    requires
        character.made_from(catalog),
        is_best_set(set, character.slot_pools()),
        0 <= i < SLOT_COUNT,
    ensures
        may_use(character.level, character.class, character.align, set.items[i]),
        set.items[i].locations.contains(slot_sequence()[i].location),
{
    let location = slot_sequence()[i].location;
    assert(character.slot_pools()[i] == character.pool(location));
    assert(character.slot_pools()[i].contains(set.items[i]));
    let j = choose|j: int|
        0 <= j < character.pool(location).len() && character.pool(location)[j] == set.items[i];
    lemma_pool_items_fit(character, catalog, location, j);
}

/// With an empty catalog the best set gives every slot the placeholder,
/// and its value is 0.
pub proof fn lemma_empty_catalog(character: CharacterView, set: ItemSetView)
    requires
        character.made_from(Seq::empty()),
        is_best_set(set, character.slot_pools()),
    ensures
        set.items == Seq::new(SLOT_COUNT as nat, |i: int| ItemView::placeholder()),
        set.value == 0,
{
    reveal(Seq::filter);
    assert forall|i: int| 0 <= i < set.items.len() implies set.items[i]
        == ItemView::placeholder() by {
        let location = slot_sequence()[i].location;
        assert(character.slot_pools()[i] == character.pool(location));
        assert(character.pool(location) == seq![ItemView::placeholder()]);
        assert(character.slot_pools()[i].contains(set.items[i]));
    }
    assert(set.items =~= Seq::new(SLOT_COUNT as nat, |i: int| ItemView::placeholder()));
    lemma_total_of_worthless(set.items);
}

/// Choosing among the usable items of a location once more changes
/// nothing.
pub proof fn lemma_usable_idempotent(
    level: nat,
    class: Class,
    align: Align,
    catalog: Seq<ItemView>,
    location: Location,
)
    ensures
        usable_at(level, class, align, usable_at(level, class, align, catalog, location), location)
            == usable_at(level, class, align, catalog, location),
    decreases catalog.len(),
{
    reveal(Seq::filter);
    let test = fits(level, class, align, location);
    if catalog.len() > 0 {
        let init = catalog.drop_last();
        lemma_usable_idempotent(level, class, align, init, location);
        if test(catalog.last()) {
            let kept = init.filter(test);
            assert(kept.push(catalog.last()).drop_last() == kept);
        }
    }
}

/// Building the pool of a location from the items of that pool gives the
/// same pool.
pub proof fn lemma_pool_idempotent(
    level: nat,
    class: Class,
    align: Align,
    catalog: Seq<ItemView>,
    location: Location,
)
    ensures
        pool_at(level, class, align, pool_at(level, class, align, catalog, location), location)
            == pool_at(level, class, align, catalog, location),
{
    reveal(Seq::filter);
    let test = fits(level, class, align, location);
    if catalog.filter(test).len() == 0 {
        let alone = seq![ItemView::placeholder()];
        lemma_ordinal_indexes_all(location);
        assert(test(ItemView::placeholder()));
        assert(alone.drop_last().filter(test) == Seq::<ItemView>::empty());
        assert(alone.filter(test) == alone);
    } else {
        lemma_usable_idempotent(level, class, align, catalog, location);
    }
}

/// A character with, for each location, the items that it may wear there.
pub struct Character {
    level: u8,
    class: Class,
    align: Align,
    usable: Vec<Vec<Item>>,
}

impl View for Character {
    type V = CharacterView;

    closed spec fn view(&self) -> CharacterView {
        CharacterView {
            level: self.level as nat,
            class: self.class,
            align: self.align,
            pools: self.usable.deep_view(),
        }
    }
}

fn has_align(list: &Vec<Align>, align: Align) -> (found: bool)
    ensures
        found == list@.contains(align),
{
    let mut i: usize = 0;
    while i < list.len()
        invariant
            i <= list.len(),
            !list@.take(i as int).contains(align),
        decreases list.len() - i,
    {
        if list[i] == align {
            return true;
        }
        assert(list@.take(i + 1) == list@.take(i as int).push(list@[i as int]));
        i = i + 1;
    }
    assert(list@.take(i as int) == list@);
    false
}

fn has_class(list: &Vec<Class>, class: Class) -> (found: bool)
    ensures
        found == list@.contains(class),
{
    let mut i: usize = 0;
    while i < list.len()
        invariant
            i <= list.len(),
            !list@.take(i as int).contains(class),
        decreases list.len() - i,
    {
        if list[i] == class {
            return true;
        }
        assert(list@.take(i + 1) == list@.take(i as int).push(list@[i as int]));
        i = i + 1;
    }
    assert(list@.take(i as int) == list@);
    false
}

fn has_location(list: &Vec<Location>, location: Location) -> (found: bool)
    ensures
        found == list@.contains(location),
{
    let mut i: usize = 0;
    while i < list.len()
        invariant
            i <= list.len(),
            !list@.take(i as int).contains(location),
        decreases list.len() - i,
    {
        if list[i] == location {
            return true;
        }
        assert(list@.take(i + 1) == list@.take(i as int).push(list@[i as int]));
        i = i + 1;
    }
    assert(list@.take(i as int) == list@);
    false
}

fn allowed(level: u8, class: Class, align: Align, item: &Item) -> (usable: bool)
    ensures
        usable == may_use(level as nat, class, align, item@),
{
    level >= item.level && !has_align(&item.align_restrictions, align) && !has_class(
        &item.class_restrictions,
        class,
    )
}

/// Taking one more item of the catalog into account adds it to the usable
/// items of a location if the character may use it and it goes there, and
/// changes nothing otherwise.
proof fn lemma_usable_step(
    level: nat,
    class: Class,
    align: Align,
    catalog: Seq<ItemView>,
    location: Location,
    i: int,
)
    requires
        0 <= i < catalog.len(),
    ensures
        usable_at(level, class, align, catalog.take(i + 1), location) == if may_use(
            level,
            class,
            align,
            catalog[i],
        ) && catalog[i].locations.contains(location) {
            usable_at(level, class, align, catalog.take(i), location).push(catalog[i])
        } else {
            usable_at(level, class, align, catalog.take(i), location)
        },
{
    reveal(Seq::filter);
    assert(catalog.take(i + 1).drop_last() == catalog.take(i));
}

/// The pool of one location.
fn build_pool(level: u8, class: Class, align: Align, items: &Vec<Item>, location: Location) -> (pool:
    Vec<Item>)
    ensures
        pool.deep_view() == pool_at(level as nat, class, align, items.deep_view(), location),
        pool.len() > 0,
{
    let ghost catalog = items.deep_view();
    let mut pool: Vec<Item> = Vec::new();
    let mut i: usize = 0;
    proof {
        reveal(Seq::filter);
        assert(catalog.take(0).len() == 0);
        assert(pool.deep_view() == usable_at(level as nat, class, align, catalog.take(0), location));
    }
    while i < items.len()
        invariant
            i <= items.len(),
            catalog == items.deep_view(),
            pool.deep_view() == usable_at(level as nat, class, align, catalog.take(i as int), location),
        decreases items.len() - i,
    {
        let item = &items[i];
        proof {
            lemma_usable_step(level as nat, class, align, catalog, location, i as int);
        }
        if allowed(level, class, align, item) && has_location(&item.locations, location) {
            let ghost before = pool.deep_view();
            pool.push(item.clone());
            assert(pool.deep_view() == before.push(item@));
        }
        i = i + 1;
    }
    assert(catalog.take(i as int) == catalog);
    if pool.len() == 0 {
        pool.push(Item::none());
        assert(pool.deep_view() == seq![ItemView::placeholder()]);
    }
    pool
}

impl Character {
    #[verifier::type_invariant]
    closed spec fn well_formed(&self) -> bool {
        &&& self.usable.len() == LOCATION_COUNT
        &&& forall|i: int| 0 <= i < LOCATION_COUNT ==> (#[trigger] self.usable[i]).len() > 0
    }

    /// A character of the given level, class and alignment, with a pool
    /// for each location: the items of the catalog that the character may
    /// use and that go there, in the order of the catalog, or the
    /// placeholder where there is no such item.
    pub fn new(level: u8, class: Class, align: Align, items: Vec<Item>) -> (character: Character)
        ensures
            character@.level == level,
            character@.class == class,
            character@.align == align,
            character@.made_from(items.deep_view()),
    {
        let locations = Item::none().locations;
        let mut usable: Vec<Vec<Item>> = Vec::new();
        let mut l: usize = 0;
        while l < LOCATION_COUNT
            invariant
                l <= LOCATION_COUNT,
                locations@ == Location::all(),
                usable.len() == l,
                forall|j: int| 0 <= j < l ==> (#[trigger] usable[j]).len() > 0,
                forall|j: int|
                    0 <= j < l ==> (#[trigger] usable[j]).deep_view() == pool_at(
                        level as nat,
                        class,
                        align,
                        items.deep_view(),
                        Location::all()[j],
                    ),
            decreases LOCATION_COUNT - l,
        {
            let pool = build_pool(level, class, align, &items, locations[l]);
            usable.push(pool);
            l = l + 1;
        }
        let character = Character { level, class, align, usable };
        proof {
            assert forall|location: Location| #[trigger]
                character@.pool(location) == pool_at(
                    level as nat,
                    class,
                    align,
                    items.deep_view(),
                    location,
                ) by {
                lemma_ordinal_indexes_all(location);
                assert(character@.pools[location.ordinal()] == character.usable[location.ordinal()].deep_view());
            }
        }
        character
    }

    /// The pools of the slots, in the order of the slot sequence.
    fn slot_pools(&self) -> (pools: Vec<&Vec<Item>>)
        ensures
            pools.deep_view() == self@.slot_pools(),
            count(pools.deep_view()) > 0,
    {
        proof {
            use_type_invariant(self);
        }
        let mut pools: Vec<&Vec<Item>> = Vec::new();
        let mut i: usize = 0;
        while i < SLOT_COUNT
            invariant
                i <= SLOT_COUNT,
                self.usable.len() == LOCATION_COUNT,
                pools.len() == i,
                forall|j: int|
                    0 <= j < i ==> (#[trigger] pools[j]).deep_view() == self@.pool(
                        slot_sequence()[j].location,
                    ),
            decreases SLOT_COUNT - i,
        {
            let slot = Slot::at(i).unwrap();
            pools.push(&self.usable[slot.location.index()]);
            i = i + 1;
        }
        proof {
            let given = self@.slot_pools();
            assert(pools.deep_view() == given);
            assert forall|j: int| 0 <= j < given.len() implies (#[trigger] given[j]).len() > 0 by {
                let at = slot_sequence()[j].location.ordinal();
                assert(self.usable[at].len() > 0);
                assert(given[j].len() == self.usable[at].len());
            }
            lemma_count_positive(given);
        }
        pools
    }

    /// The set of the greatest value among all ways to give each slot an
    /// item from the pool of its location. Of several sets with that value,
    /// the one that comes last in the order of `cartesian` is chosen.
    pub fn find_best_item_set(&self) -> (r: Result<ItemSet<'_>, Error>)
        ensures
            r matches Ok(set) && is_best_set(set@, self@.slot_pools()),
    {
        let pools = self.slot_pools();
        let r = best_of(&pools);
        proof {
            let given = self@.slot_pools();
            let tuples = cartesian(given);
            match &r {
                Ok(set) => {
                    let k = choose|k: int|
                        #![auto]
                        is_last_best(tuples, k) && set@.items == tuples[k].take(SLOT_COUNT as int);
                    lemma_last_best_is_best_set(given, k);
                    assert(tuples[k].take(SLOT_COUNT as int) == tuples[k]);
                    assert(set@ == ItemSetView { value: total_value(tuples[k]), items: tuples[k] });
                },
                Err(_) => {},
            }
        }
        r
    }

    /// The number of sets that a search goes through: the product of the
    /// sizes of the slots' pools, unless it is too large for a `usize`. It
    /// is never 0.
    pub fn combinations(&self) -> (ways: Option<usize>)
        ensures
            match ways {
                Some(ways) => ways == count(self@.slot_pools()) && ways > 0,
                None => count(self@.slot_pools()) > usize::MAX,
            },
    {
        let pools = self.slot_pools();
        count_of(&pools)
    }

    /// The character's level.
    pub fn level(&self) -> (level: u8)
        ensures
            level == self@.level,
    {
        self.level
    }

    /// The character's class.
    pub fn class(&self) -> (class: Class)
        ensures
            class == self@.class,
    {
        self.class
    }

    /// The character's alignment.
    pub fn align(&self) -> (align: Align)
        ensures
            align == self@.align,
    {
        self.align
    }

    /// The pool of a location. It is never empty.
    pub fn usable(&self, location: Location) -> (pool: &Vec<Item>)
        ensures
            pool.deep_view() == self@.pool(location),
            pool.len() > 0,
    {
        proof {
            use_type_invariant(self);
        }
        &self.usable[location.index()]
    }

    /// Whether the character may use the item: its level reaches the
    /// item's, and the item forbids neither its alignment nor its class.
    pub fn can_use(&self, item: &Item) -> (usable: bool)
        ensures
            usable == may_use(self@.level, self@.class, self@.align, item@),
    {
        allowed(self.level, self.class, self.align, item)
    }
}

} // verus!
