use gearset::character::{Align, Character, Class};
use gearset::error::Error;
use gearset::item::{Item, Location};
use gearset::itemset::ItemSet;
use gearset::optimizer::best_of;
use gearset::slot::Slot;

fn worth(name: &str, location: Location, hp: i8) -> Item {
    let mut item = Item::default();
    item.name = name.to_string();
    item.locations = vec![location];
    item.hp = hp;
    item
}

/// Every way to take one item from each pool, the last pool's item changing
/// fastest.
fn all_choices<'a>(pools: &[&'a Vec<Item>]) -> Vec<Vec<&'a Item>> {
    let mut tuples: Vec<Vec<&'a Item>> = vec![Vec::new()];
    for pool in pools {
        let mut longer = Vec::new();
        for tuple in &tuples {
            for item in pool.iter() {
                let mut next = tuple.clone();
                next.push(item);
                longer.push(next);
            }
        }
        tuples = longer;
    }
    tuples
}

fn slot_pools(character: &Character) -> Vec<&Vec<Item>> {
    (0..20)
        .map(|i| character.usable(Slot::at(i).unwrap().location))
        .collect()
}

#[test]
fn best_value_is_the_maximum_over_all_choices() {
    let catalog = vec![
        worth("f1", Location::Finger, 4),
        worth("f2", Location::Finger, -3),
        worth("f3", Location::Finger, 9),
        worth("n1", Location::Neck, 2),
        worth("n2", Location::Neck, 6),
        worth("h1", Location::Head, -1),
        worth("h2", Location::Head, -5),
        worth("w1", Location::Wrist, 0),
        worth("w2", Location::Wrist, 7),
        worth("w3", Location::Wrist, 7),
    ];
    let character = Character::new(5, Class::Thief, Align::Neutral, catalog);
    let pools = slot_pools(&character);
    let choices = all_choices(&pools);
    assert_eq!(choices.len(), 3 * 3 * 2 * 2 * 2 * 3 * 3);
    assert_eq!(character.combinations(), Some(choices.len()));
    let maximum = choices
        .iter()
        .map(|tuple| tuple.iter().map(|item| item.value()).sum::<i32>())
        .max()
        .unwrap();
    let set = character.find_best_item_set().unwrap();
    assert_eq!(set.value(), maximum);
    assert_eq!(set.value(), 9 + 9 + 6 + 6 - 1 + 7 + 7);
    let sum: i32 = set.items().iter().map(|item| item.value()).sum();
    assert_eq!(set.value(), sum);
    for (i, chosen) in set.items().iter().enumerate() {
        assert!(pools[i].iter().any(|item| item == *chosen));
    }
}

#[test]
fn search_goes_through_the_choices_in_order() {
    // with equal values everywhere the last choice is kept
    let a = vec![worth("a1", Location::Light, 1), worth("a2", Location::Light, 1)];
    let b = vec![
        worth("b1", Location::Finger, 2),
        worth("b2", Location::Finger, 2),
        worth("b3", Location::Finger, 2),
    ];
    let rest = vec![Item::none()];
    let mut pools: Vec<&Vec<Item>> = vec![&a, &b];
    while pools.len() < 20 {
        pools.push(&rest);
    }
    let choices = all_choices(&pools);
    let set = best_of(&pools).unwrap();
    let last = choices.last().unwrap();
    for (chosen, expected) in set.items().iter().zip(last.iter()) {
        assert_eq!(chosen.name, expected.name);
    }
    assert_eq!(set.items()[0].name, "a2");
    assert_eq!(set.items()[1].name, "b3");
    assert_eq!(set.value(), 3);
}

#[test]
fn of_equal_sets_the_last_is_kept() {
    let first = worth("first", Location::Head, 5);
    let second = worth("second", Location::Head, 5);
    let lesser = worth("lesser", Location::Head, 4);
    let character = Character::new(
        1,
        Class::Cleric,
        Align::Good,
        vec![first, second, lesser],
    );
    let set = character.find_best_item_set().unwrap();
    assert_eq!(set.value(), 5);
    assert_eq!(set.items()[6].name, "second");
}

#[test]
fn a_greater_value_earlier_beats_a_later_one() {
    let great = worth("great", Location::Feet, 9);
    let small = worth("small", Location::Feet, 1);
    let character = Character::new(1, Class::Cleric, Align::Good, vec![great, small]);
    let set = character.find_best_item_set().unwrap();
    assert_eq!(set.items()[8].name, "great");
    assert_eq!(set.value(), 9);
}

#[test]
fn an_item_worse_than_nothing_is_still_worn() {
    // the placeholder enters a pool only where nothing else does
    let cursed = worth("cursed", Location::Aura, -20);
    let character = Character::new(1, Class::Mage, Align::Evil, vec![cursed]);
    let set = character.find_best_item_set().unwrap();
    assert_eq!(set.items()[18].name, "cursed");
    assert_eq!(set.value(), -20);
}

#[test]
fn pools_beyond_the_slots_are_gone_through_but_do_not_count() {
    let slot = vec![worth("worn", Location::Light, 2)];
    let extra = vec![
        worth("x1", Location::Light, 50),
        worth("x2", Location::Light, 60),
    ];
    let mut pools: Vec<&Vec<Item>> = vec![&slot; 20];
    pools.push(&extra);
    let set = best_of(&pools).unwrap();
    assert_eq!(set.value(), 40);
    assert_eq!(set.items().len(), 20);
}

#[test]
fn set_is_shown_slot_by_slot() {
    let catalog = vec![
        worth("a lantern", Location::Light, 1),
        worth("a ring", Location::Finger, 2),
        worth("a shield", Location::Offhand, 3),
        worth("a sword", Location::Wielded, 4),
        worth("a halo", Location::Aura, 5),
        worth("a ghost", Location::Spirit, 6),
    ];
    let character = Character::new(1, Class::Warrior, Align::Good, catalog);
    let set = character.find_best_item_set().unwrap();
    let expected = "The set has a total value of 23\n\
\x20   Light:   a lantern\n\
\x20   Finger:  a ring\n\
\x20   Finger:  a ring\n\
\x20   Neck:    None\n\
\x20   Neck:    None\n\
\x20   Body:    None\n\
\x20   Head:    None\n\
\x20   Legs:    None\n\
\x20   Feet:    None\n\
\x20   Hands:   None\n\
\x20   Arms:    None\n\
\x20   Offhand: a shield\n\
\x20   About:   None\n\
\x20   Waist:   None\n\
\x20   Wrist:   None\n\
\x20   Wrist:   None\n\
\x20   Wielded: a sword\n\
\x20   Held:    None\n\
\x20   Aura:    a halo\n\
\x20   Spirit:  a ghost\n";
    assert_eq!(set.to_string(), expected);
}

#[test]
fn negative_and_zero_totals_are_shown() {
    let none = Item::none();
    let empty = ItemSet::try_from(vec![&none; 20]).unwrap();
    assert!(empty
        .to_string()
        .starts_with("The set has a total value of 0\n    Light:   None\n"));
    let bad = worth("bad", Location::Light, -128);
    let worst = ItemSet::try_from(vec![&bad; 20]).unwrap();
    assert_eq!(worst.value(), -2560);
    assert!(worst
        .to_string()
        .starts_with("The set has a total value of -2560\n    Light:   bad\n"));
    let mut top = Item::default();
    top.hp = 127;
    top.mana = 127;
    top.hr = 127;
    top.dr = 127;
    top.ss = -128;
    let best = ItemSet::try_from(vec![&top; 20]).unwrap();
    assert_eq!(best.value(), 52140);
    assert!(best
        .to_string()
        .starts_with("The set has a total value of 52140\n"));
}

#[test]
fn errors_are_shown() {
    assert_eq!(
        Error::NoCombinations.to_string(),
        "no combination of items fills the slots"
    );
    assert_eq!(
        Error::MissingItem(Slot { location: Location::Wrist, instance: 1 }).to_string(),
        "no item for slot Wrist 2"
    );
    assert_eq!(
        Error::MissingItem(Slot { location: Location::Light, instance: 0 }).to_string(),
        "no item for slot Light 1"
    );
    assert_eq!(
        Error::ValidationError("shield with a two-handed weapon".to_string()).to_string(),
        "invalid item set: shield with a two-handed weapon"
    );
}

#[test]
fn json_errors_are_taken_in() {
    let failure = serde_json::from_str::<bool>("nonsense").unwrap_err();
    let text = failure.to_string();
    let error = Error::from(failure);
    assert!(matches!(error, Error::SerdeJson(_)));
    assert_eq!(error.to_string(), text);
    assert!(!text.is_empty());
}
