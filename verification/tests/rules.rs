use gearset::character::{Align, Character, Class};
use gearset::error::Error;
use gearset::item::{Item, ItemRecord, Location};
use gearset::itemset::ItemSet;
use gearset::optimizer::best_of;
use gearset::product::count_of;
use gearset::slot::Slot;

fn item(name: &str, locations: Vec<Location>) -> Item {
    let mut item = Item::default();
    item.name = name.to_string();
    item.locations = locations;
    item
}

fn worth(name: &str, location: Location, hp: i8) -> Item {
    let mut item = item(name, vec![location]);
    item.hp = hp;
    item
}

#[test]
fn value_follows_the_formula() {
    let mut it = Item::default();
    it.hp = 3;
    it.mana = 9;
    it.hr = 2;
    it.dr = -1;
    it.ss = -2;
    // 3 + 9 / 2 + 2 * 5 - 1 * 10 + 2 * 4
    assert_eq!(it.value(), 15);
}

#[test]
fn negative_mana_does_not_count() {
    let mut it = Item::default();
    it.mana = -9;
    assert_eq!(it.value(), 0);
    it.mana = 1;
    assert_eq!(it.value(), 0);
    it.mana = 2;
    assert_eq!(it.value(), 1);
}

#[test]
fn value_does_not_wrap_on_large_stats() {
    let mut it = Item::default();
    it.hp = 127;
    it.mana = 127;
    it.hr = 127;
    it.dr = 127;
    it.ss = -128;
    assert_eq!(it.value(), 127 + 63 + 635 + 1270 + 512);
    it.hp = -128;
    it.mana = -128;
    it.hr = -128;
    it.dr = -128;
    it.ss = 127;
    assert_eq!(it.value(), -128 - 640 - 1280 - 508);
}

#[test]
fn unscored_stats_do_not_count() {
    let mut it = Item::default();
    it.sbr = 5;
    it.spet = 6;
    it.ac_apply = -7;
    it.level = 9;
    assert_eq!(it.value(), 0);
}

#[test]
fn value_is_the_same_on_every_call() {
    let mut it = Item::default();
    it.hp = 4;
    it.dr = 2;
    let first = it.value();
    let _ = Character::new(1, Class::Thief, Align::Evil, vec![it.clone()]);
    assert_eq!(it.value(), first);
    assert_eq!(it.clone().value(), first);
}

#[test]
fn placeholder_is_worth_nothing_and_goes_everywhere() {
    let none = Item::none();
    assert_eq!(none.name, "None");
    assert_eq!(none.value(), 0);
    assert_eq!(none.level, 0);
    assert_eq!(none.locations.len(), 17);
    assert_eq!(none.locations[0], Location::Light);
    assert_eq!(none.locations[16], Location::Spirit);
    assert!(none.align_restrictions.is_empty());
    assert!(none.class_restrictions.is_empty());
    assert_eq!(none.to_string(), "None");
}

#[test]
fn locations_are_numbered_in_order() {
    let none = Item::none();
    for (i, location) in none.locations.iter().enumerate() {
        assert_eq!(location.index(), i);
    }
    assert_eq!(Location::Offhand.label(), "Offhand");
}

#[test]
fn bare_record_gets_the_defaults() {
    let record = ItemRecord::new("stick".to_string(), vec![Location::Held]);
    let loaded = Item::from_record(record);
    assert_eq!(loaded.name, "stick");
    assert_eq!(loaded.locations, vec![Location::Held]);
    assert_eq!(loaded.level, 0);
    assert_eq!(
        (loaded.hp, loaded.mana, loaded.hr, loaded.dr),
        (0, 0, 0, 0)
    );
    assert_eq!(
        (loaded.ss, loaded.sbr, loaded.spet, loaded.ac_apply),
        (0, 0, 0, 0)
    );
    assert!(loaded.align_restrictions.is_empty());
    assert!(loaded.class_restrictions.is_empty());
    assert_eq!(loaded, item("stick", vec![Location::Held]));
}

#[test]
fn record_fields_are_taken_over() {
    let mut record = ItemRecord::new("staff".to_string(), vec![Location::Wielded]);
    record.level = Some(12);
    record.mana = Some(20);
    record.ss = Some(-3);
    record.class_restrictions = Some(vec![Class::Warrior, Class::Thief]);
    let loaded = Item::from_record(record);
    assert_eq!(loaded.level, 12);
    assert_eq!(loaded.mana, 20);
    assert_eq!(loaded.ss, -3);
    assert_eq!(loaded.hp, 0);
    assert_eq!(loaded.class_restrictions, vec![Class::Warrior, Class::Thief]);
    assert!(loaded.align_restrictions.is_empty());
    assert_eq!(loaded.value(), 22);
}

#[test]
fn pools_keep_catalog_order_and_respect_restrictions() {
    let a = worth("a", Location::Body, 1);
    let mut b = worth("b", Location::Body, 2);
    b.align_restrictions = vec![Align::Good];
    let mut c = worth("c", Location::Body, 3);
    c.class_restrictions = vec![Class::Mage, Class::Cleric];
    let mut d = worth("d", Location::Body, 4);
    d.level = 11;
    let e = item("e", vec![Location::Legs, Location::Body]);
    let catalog = vec![a, b, c, d, e];

    let pool_names = |character: &Character| -> Vec<String> {
        character
            .usable(Location::Body)
            .iter()
            .map(|item| item.name.clone())
            .collect()
    };
    let good_mage = Character::new(10, Class::Mage, Align::Good, catalog.clone());
    assert_eq!(pool_names(&good_mage), vec!["a", "e"]);
    let evil_thief = Character::new(11, Class::Thief, Align::Evil, catalog.clone());
    assert_eq!(pool_names(&evil_thief), vec!["a", "b", "c", "d", "e"]);
    assert_eq!(evil_thief.usable(Location::Legs).len(), 1);
    assert_eq!(evil_thief.usable(Location::Legs)[0].name, "e");
    assert_eq!(evil_thief.usable(Location::Head)[0], Item::none());
    assert_eq!(evil_thief.level(), 11);
    assert_eq!(evil_thief.class(), Class::Thief);
    assert_eq!(evil_thief.align(), Align::Evil);
}

#[test]
fn can_use_checks_level_alignment_and_class() {
    let character = Character::new(20, Class::Cleric, Align::Neutral, Vec::new());
    let mut it = item("mace", vec![Location::Wielded]);
    assert!(character.can_use(&it));
    it.level = 20;
    assert!(character.can_use(&it));
    it.level = 21;
    assert!(!character.can_use(&it));
    it.level = 0;
    it.align_restrictions = vec![Align::Evil, Align::Neutral];
    assert!(!character.can_use(&it));
    it.align_restrictions = vec![Align::Evil];
    it.class_restrictions = vec![Class::Cleric];
    assert!(!character.can_use(&it));
    it.class_restrictions = vec![Class::Mage];
    assert!(character.can_use(&it));
}

#[test]
fn an_item_enters_a_pool_once() {
    let twice = item("band", vec![Location::Wrist, Location::Wrist]);
    let character = Character::new(1, Class::Mage, Align::Good, vec![twice]);
    assert_eq!(character.usable(Location::Wrist).len(), 1);
}

#[test]
fn excluded_items_are_in_no_pool() {
    let mut high = item("crown", Item::none().locations);
    high.level = 50;
    high.hp = 100;
    let mut forbidden = item("idol", Item::none().locations);
    forbidden.align_restrictions = vec![Align::Good];
    forbidden.hp = 100;
    let mut barred = item("tome", Item::none().locations);
    barred.class_restrictions = vec![Class::Warrior];
    barred.hp = 100;
    let character = Character::new(49, Class::Warrior, Align::Good, vec![high, forbidden, barred]);
    for location in Item::none().locations {
        let pool = character.usable(location);
        assert_eq!(pool.len(), 1);
        assert_eq!(pool[0], Item::none());
    }
    assert_eq!(character.find_best_item_set().unwrap().value(), 0);
}

#[test]
fn short_list_names_the_first_empty_slot() {
    let none = Item::none();
    let short: Vec<&Item> = vec![&none; 2];
    match ItemSet::try_from(short) {
        Err(Error::MissingItem(slot)) => {
            assert_eq!(slot, Slot { location: Location::Finger, instance: 1 });
        }
        _ => panic!("a list of two items fills no set"),
    }
    match ItemSet::try_from(Vec::new()) {
        Err(Error::MissingItem(slot)) => {
            assert_eq!(slot, Slot { location: Location::Light, instance: 0 });
        }
        _ => panic!("an empty list fills no set"),
    }
    let nineteen: Vec<&Item> = vec![&none; 19];
    assert!(matches!(
        ItemSet::try_from(nineteen),
        Err(Error::MissingItem(Slot { location: Location::Spirit, instance: 0 }))
    ));
}

#[test]
fn full_list_makes_a_set() {
    let a = worth("a", Location::Light, 5);
    let b = worth("b", Location::Finger, -2);
    let none = Item::none();
    let mut list: Vec<&Item> = vec![&a, &b];
    while list.len() < 20 {
        list.push(&none);
    }
    let set = ItemSet::try_from(list).unwrap();
    assert_eq!(set.value(), 3);
    assert_eq!(set.items().len(), 20);
    assert_eq!(set.items()[0].name, "a");
    assert_eq!(set.items()[1].name, "b");
}

#[test]
fn items_beyond_the_last_slot_are_left_out() {
    let a = worth("a", Location::Light, 5);
    let extra = worth("extra", Location::Light, 100);
    let mut list: Vec<&Item> = vec![&a; 20];
    list.push(&extra);
    let set = ItemSet::try_from(list).unwrap();
    assert_eq!(set.value(), 100);
    assert_eq!(set.items().len(), 20);
}

#[test]
fn slot_sequence_has_twenty_slots() {
    let expected = [
        (Location::Light, 0),
        (Location::Finger, 0),
        (Location::Finger, 1),
        (Location::Neck, 0),
        (Location::Neck, 1),
        (Location::Body, 0),
        (Location::Head, 0),
        (Location::Legs, 0),
        (Location::Feet, 0),
        (Location::Hands, 0),
        (Location::Arms, 0),
        (Location::Offhand, 0),
        (Location::About, 0),
        (Location::Waist, 0),
        (Location::Wrist, 0),
        (Location::Wrist, 1),
        (Location::Wielded, 0),
        (Location::Held, 0),
        (Location::Aura, 0),
        (Location::Spirit, 0),
    ];
    for (i, (location, instance)) in expected.iter().enumerate() {
        assert_eq!(
            Slot::at(i),
            Some(Slot { location: *location, instance: *instance })
        );
    }
    assert_eq!(Slot::at(20), None);
    assert_eq!(Slot::at(usize::MAX), None);
}

#[test]
fn empty_pool_means_no_combinations() {
    let full = vec![Item::none()];
    let empty: Vec<Item> = Vec::new();
    let mut pools: Vec<&Vec<Item>> = vec![&full; 20];
    pools[7] = &empty;
    assert!(matches!(best_of(&pools), Err(Error::NoCombinations)));
    assert_eq!(count_of(&pools), Some(0));
    // an empty pool counts even where the pools are too few
    let pools: Vec<&Vec<Item>> = vec![&full, &empty];
    assert!(matches!(best_of(&pools), Err(Error::NoCombinations)));
}

#[test]
fn too_few_pools_leave_a_slot_empty() {
    let full = vec![Item::none()];
    let pools: Vec<&Vec<Item>> = vec![&full; 5];
    match best_of(&pools) {
        Err(Error::MissingItem(slot)) => {
            assert_eq!(slot, Slot { location: Location::Body, instance: 0 });
        }
        _ => panic!("five pools fill no set"),
    }
    let pools: Vec<&Vec<Item>> = Vec::new();
    assert!(matches!(
        best_of(&pools),
        Err(Error::MissingItem(Slot { location: Location::Light, instance: 0 }))
    ));
}

#[test]
fn combinations_are_counted() {
    let one = vec![Item::none()];
    let three = vec![Item::none(), Item::none(), Item::none()];
    let two = vec![Item::none(), Item::none()];
    let pools: Vec<&Vec<Item>> = vec![&one, &three, &two, &three];
    assert_eq!(count_of(&pools), Some(18));
    assert_eq!(count_of(&Vec::new()), Some(1));
    let character = Character::new(1, Class::Mage, Align::Good, Vec::new());
    assert_eq!(character.combinations(), Some(1));
    let rings = vec![
        worth("r1", Location::Finger, 1),
        worth("r2", Location::Finger, 2),
        worth("r3", Location::Finger, 3),
        worth("cap", Location::Head, 1),
        worth("hat", Location::Head, 1),
    ];
    let character = Character::new(1, Class::Mage, Align::Good, rings);
    assert_eq!(character.combinations(), Some(18));
}

#[test]
fn count_that_does_not_fit_is_reported() {
    let big: Vec<Item> = (0..1 << 16).map(|_| Item::default()).collect();
    let pools: Vec<&Vec<Item>> = vec![&big; 4];
    assert_eq!(count_of(&pools), None);
    let pools: Vec<&Vec<Item>> = vec![&big; 3];
    assert_eq!(count_of(&pools), Some(1 << 48));
    let empty: Vec<Item> = Vec::new();
    let pools: Vec<&Vec<Item>> = vec![&big, &big, &big, &big, &empty];
    assert_eq!(count_of(&pools), Some(0));
}

#[test]
fn items_are_ordered_by_value() {
    let small = worth("small", Location::Head, 1);
    let large = worth("large", Location::Feet, 2);
    let mut other = item("other", vec![Location::Neck]);
    other.mana = 4;
    assert!(small < large);
    assert!(large > small);
    assert!(small <= large);
    assert_eq!(large.partial_cmp(&other), Some(std::cmp::Ordering::Equal));
    assert_eq!(other.partial_cmp(&small), Some(std::cmp::Ordering::Greater));
    assert_eq!(small.partial_cmp(&other), Some(std::cmp::Ordering::Less));
    assert!(large != other);
}
