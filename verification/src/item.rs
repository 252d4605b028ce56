use crate::character::{Align, Class};
use vstd::prelude::*;

verus! {

/// An equipment location on a character.
#[derive(Clone, Copy, Debug, PartialEq, Eq, Structural)]
pub enum Location {
    Light,
    Finger,
    Neck,
    Body,
    Head,
    Legs,
    Feet,
    Hands,
    Arms,
    Offhand,
    About,
    Waist,
    Wrist,
    Wielded,
    Held,
    Aura,
    Spirit,
}

/// Number of distinct equipment locations.
pub const LOCATION_COUNT: usize = 17;

impl Location {
    /// Position of the location in declaration order, from 0.
    pub open spec fn ordinal(self) -> int {
        match self {
            Location::Light => 0,
            Location::Finger => 1,
            Location::Neck => 2,
            Location::Body => 3,
            Location::Head => 4,
            Location::Legs => 5,
            Location::Feet => 6,
            Location::Hands => 7,
            Location::Arms => 8,
            Location::Offhand => 9,
            Location::About => 10,
            Location::Waist => 11,
            Location::Wrist => 12,
            Location::Wielded => 13,
            Location::Held => 14,
            Location::Aura => 15,
            Location::Spirit => 16,
        }
    }

    /// Every location, in declaration order.
    pub open spec fn all() -> Seq<Location> {
        seq![
            Location::Light,
            Location::Finger,
            Location::Neck,
            Location::Body,
            Location::Head,
            Location::Legs,
            Location::Feet,
            Location::Hands,
            Location::Arms,
            Location::Offhand,
            Location::About,
            Location::Waist,
            Location::Wrist,
            Location::Wielded,
            Location::Held,
            Location::Aura,
            Location::Spirit,
        ]
    }

    /// The name under which the location is shown.
    pub open spec fn label_text(self) -> Seq<char> {
        match self {
            Location::Light => "Light"@,
            Location::Finger => "Finger"@,
            Location::Neck => "Neck"@,
            Location::Body => "Body"@,
            Location::Head => "Head"@,
            Location::Legs => "Legs"@,
            Location::Feet => "Feet"@,
            Location::Hands => "Hands"@,
            Location::Arms => "Arms"@,
            Location::Offhand => "Offhand"@,
            Location::About => "About"@,
            Location::Waist => "Waist"@,
            Location::Wrist => "Wrist"@,
            Location::Wielded => "Wielded"@,
            Location::Held => "Held"@,
            Location::Aura => "Aura"@,
            Location::Spirit => "Spirit"@,
        }
    }

    /// The name under which the location is shown.
    pub fn label(self) -> (s: &'static str)
        ensures
            s@ == self.label_text(),
    {
        match self {
            Location::Light => "Light",
            Location::Finger => "Finger",
            Location::Neck => "Neck",
            Location::Body => "Body",
            Location::Head => "Head",
            Location::Legs => "Legs",
            Location::Feet => "Feet",
            Location::Hands => "Hands",
            Location::Arms => "Arms",
            Location::Offhand => "Offhand",
            Location::About => "About",
            Location::Waist => "Waist",
            Location::Wrist => "Wrist",
            Location::Wielded => "Wielded",
            Location::Held => "Held",
            Location::Aura => "Aura",
            Location::Spirit => "Spirit",
        }
    }

    /// The ordinal as an array index.
    pub fn index(self) -> (i: usize)
        ensures
            i == self.ordinal(),
            i < LOCATION_COUNT,
    {
        match self {
            Location::Light => 0,
            Location::Finger => 1,
            Location::Neck => 2,
            Location::Body => 3,
            Location::Head => 4,
            Location::Legs => 5,
            Location::Feet => 6,
            Location::Hands => 7,
            Location::Arms => 8,
            Location::Offhand => 9,
            Location::About => 10,
            Location::Waist => 11,
            Location::Wrist => 12,
            Location::Wielded => 13,
            Location::Held => 14,
            Location::Aura => 15,
            Location::Spirit => 16,
        }
    }
}

/// The ordinal numbers the locations in the order of `Location::all`.
pub proof fn lemma_ordinal_indexes_all(loc: Location)
    ensures
        0 <= loc.ordinal() < LOCATION_COUNT,
        Location::all().len() == LOCATION_COUNT,
        Location::all()[loc.ordinal()] == loc,
{
}

/// Mathematical content of an [`Item`].
pub struct ItemView {
    pub name: Seq<char>,
    pub locations: Seq<Location>,
    pub level: nat,
    pub hp: int,
    pub mana: int,
    pub hr: int,
    pub dr: int,
    pub ss: int,
    pub sbr: int,
    pub spet: int,
    pub ac_apply: int,
    pub align_restrictions: Seq<Align>,
    pub class_restrictions: Seq<Class>,
}

impl ItemView {
    /// The score of the item: hit points count once, positive mana counts
    /// half (rounded toward zero), each point of hit roll counts five, each
    /// point of damage roll ten, and each point of spell save costs four.
    /// The other stats do not count.
    pub open spec fn value(self) -> int {
        self.hp + (if self.mana > 0 {
            self.mana / 2
        } else {
            0
        }) + self.hr * 5 + self.dr * 10 - self.ss * 4
    }

    /// Whether every stat is one that an [`Item`] can hold.
    pub open spec fn stats_in_range(self) -> bool {
        &&& i8::MIN <= self.hp <= i8::MAX
        &&& i8::MIN <= self.mana <= i8::MAX
        &&& i8::MIN <= self.hr <= i8::MAX
        &&& i8::MIN <= self.dr <= i8::MAX
        &&& i8::MIN <= self.ss <= i8::MAX
    }

    /// The stand-in for an empty slot: named "None", wearable everywhere,
    /// without requirements and without stats.
    pub open spec fn placeholder() -> ItemView {
        ItemView {
            name: "None"@,
            locations: Location::all(),
            level: 0,
            hp: 0,
            mana: 0,
            hr: 0,
            dr: 0,
            ss: 0,
            sbr: 0,
            spet: 0,
            ac_apply: 0,
            align_restrictions: Seq::empty(),
            class_restrictions: Seq::empty(),
        }
    }

    /// The item that has only a name and locations: level 0, no stats, no
    /// restrictions.
    pub open spec fn plain(name: Seq<char>, locations: Seq<Location>) -> ItemView {
        ItemView {
            name,
            locations,
            level: 0,
            hp: 0,
            mana: 0,
            hr: 0,
            dr: 0,
            ss: 0,
            sbr: 0,
            spet: 0,
            ac_apply: 0,
            align_restrictions: Seq::empty(),
            class_restrictions: Seq::empty(),
        }
    }
}

/// Least score that an item can have.
pub const MIN_ITEM_VALUE: i32 = -2556;

/// Greatest score that an item can have.
pub const MAX_ITEM_VALUE: i32 = 2607;

/// The score of an item whose stats are in range lies between
/// `MIN_ITEM_VALUE` and `MAX_ITEM_VALUE`.
pub proof fn lemma_value_bounds(item: ItemView)
    requires
        item.stats_in_range(),
    ensures
        MIN_ITEM_VALUE <= item.value() <= MAX_ITEM_VALUE,
{
}

/// The score depends on hit points, mana, hit roll, damage roll and spell
/// save alone: items that agree in these have the same score, whatever
/// else they hold and whoever wears them.
pub proof fn lemma_value_from_stats(a: ItemView, b: ItemView)
    requires
        a.hp == b.hp,
        a.mana == b.mana,
        a.hr == b.hr,
        a.dr == b.dr,
        a.ss == b.ss,
    ensures
        a.value() == b.value(),
{
}

/// A piece of equipment.
#[derive(Debug, PartialEq, Eq)]
pub struct Item {
    pub name: String,
    pub locations: Vec<Location>,
    pub level: u8,
    pub hp: i8,
    pub mana: i8,
    pub hr: i8,
    pub dr: i8,
    pub ss: i8,
    pub sbr: i8,
    pub spet: i8,
    pub ac_apply: i8,
    pub align_restrictions: Vec<Align>,
    pub class_restrictions: Vec<Class>,
}

impl View for Item {
    type V = ItemView;

    open spec fn view(&self) -> ItemView {
        ItemView {
            name: self.name@,
            locations: self.locations@,
            level: self.level as nat,
            hp: self.hp as int,
            mana: self.mana as int,
            hr: self.hr as int,
            dr: self.dr as int,
            ss: self.ss as int,
            sbr: self.sbr as int,
            spet: self.spet as int,
            ac_apply: self.ac_apply as int,
            align_restrictions: self.align_restrictions@,
            class_restrictions: self.class_restrictions@,
        }
    }
}

impl DeepView for Item {
    type V = ItemView;

    open spec fn deep_view(&self) -> ItemView {
        self@
    }
}

impl Default for Item {
    /// The item without a name or locations, with level 0, no stats and no
    /// restrictions.
    fn default() -> (item: Item)
        ensures
            item@ == ItemView::plain(Seq::empty(), Seq::empty()),
    {
        Item {
            name: String::new(),
            locations: Vec::new(),
            level: 0,
            hp: 0,
            mana: 0,
            hr: 0,
            dr: 0,
            ss: 0,
            sbr: 0,
            spet: 0,
            ac_apply: 0,
            align_restrictions: Vec::new(),
            class_restrictions: Vec::new(),
        }
    }
}

impl Clone for Item {
    fn clone(&self) -> (item: Item)
        ensures
            item@ == self@,
    {
        Item {
            name: self.name.clone(),
            locations: copy_of(&self.locations),
            level: self.level,
            hp: self.hp,
            mana: self.mana,
            hr: self.hr,
            dr: self.dr,
            ss: self.ss,
            sbr: self.sbr,
            spet: self.spet,
            ac_apply: self.ac_apply,
            align_restrictions: copy_of(&self.align_restrictions),
            class_restrictions: copy_of(&self.class_restrictions),
        }
    }
}

/// A copy of a vector of plain values.
fn copy_of<T: Copy>(v: &Vec<T>) -> (r: Vec<T>)
    ensures
        r@ == v@,
{
    let mut r: Vec<T> = Vec::new();
    let mut i: usize = 0;
    while i < v.len()
        invariant
            i <= v.len(),
            r@ == v@.take(i as int),
        decreases v.len() - i,
    {
        r.push(v[i]);
        i = i + 1;
    }
    r
}

/// A catalog entry as it is written down. Only the name and the locations
/// have to be there.
#[derive(Debug, PartialEq, Eq)]
pub struct ItemRecord {
    pub name: String,
    pub locations: Vec<Location>,
    pub level: Option<u8>,
    pub hp: Option<i8>,
    pub mana: Option<i8>,
    pub hr: Option<i8>,
    pub dr: Option<i8>,
    pub ss: Option<i8>,
    pub sbr: Option<i8>,
    pub spet: Option<i8>,
    pub ac_apply: Option<i8>,
    pub align_restrictions: Option<Vec<Align>>,
    pub class_restrictions: Option<Vec<Class>>,
}

impl ItemRecord {
    /// Whether the entry holds nothing but the name and the locations.
    pub open spec fn is_bare(self) -> bool {
        &&& self.level is None
        &&& self.hp is None
        &&& self.mana is None
        &&& self.hr is None
        &&& self.dr is None
        &&& self.ss is None
        &&& self.sbr is None
        &&& self.spet is None
        &&& self.ac_apply is None
        &&& self.align_restrictions is None
        &&& self.class_restrictions is None
    }

    /// An entry with the given name and locations and nothing else.
    pub fn new(name: String, locations: Vec<Location>) -> (record: ItemRecord)
        ensures
            record.name == name,
            record.locations == locations,
            record.is_bare(),
    {
        ItemRecord {
            name,
            locations,
            level: None,
            hp: None,
            mana: None,
            hr: None,
            dr: None,
            ss: None,
            sbr: None,
            spet: None,
            ac_apply: None,
            align_restrictions: None,
            class_restrictions: None,
        }
    }
}

/// The number that an entry gives for a stat, or 0 if it gives none.
pub open spec fn stat_or_zero(stat: Option<i8>) -> int {
    match stat {
        Some(points) => points as int,
        None => 0,
    }
}

/// The list that an entry gives, or the empty list if it gives none.
pub open spec fn list_or_empty<T>(list: Option<Vec<T>>) -> Seq<T> {
    match list {
        Some(list) => list@,
        None => Seq::empty(),
    }
}

fn stat(given: Option<i8>) -> (points: i8)
    ensures
        points == stat_or_zero(given),
{
    match given {
        Some(points) => points,
        None => 0,
    }
}

fn list<T>(given: Option<Vec<T>>) -> (r: Vec<T>)
    ensures
        r@ == list_or_empty(given),
{
    match given {
        Some(entries) => entries,
        None => Vec::new(),
    }
}

impl Item {
    /// The item that a catalog entry stands for. A stat or a level that the
    /// entry leaves out is 0, a list of restrictions that it leaves out is
    /// empty.
    pub fn from_record(record: ItemRecord) -> (item: Item)
        ensures
            item@ == (ItemView {
                name: record.name@,
                locations: record.locations@,
                level: match record.level {
                    Some(level) => level as nat,
                    None => 0,
                },
                hp: stat_or_zero(record.hp),
                mana: stat_or_zero(record.mana),
                hr: stat_or_zero(record.hr),
                dr: stat_or_zero(record.dr),
                ss: stat_or_zero(record.ss),
                sbr: stat_or_zero(record.sbr),
                spet: stat_or_zero(record.spet),
                ac_apply: stat_or_zero(record.ac_apply),
                align_restrictions: list_or_empty(record.align_restrictions),
                class_restrictions: list_or_empty(record.class_restrictions),
            }),
            record.is_bare() ==> item@ == ItemView::plain(record.name@, record.locations@),
    {
        Item {
            name: record.name,
            locations: record.locations,
            level: match record.level {
                Some(level) => level,
                None => 0,
            },
            hp: stat(record.hp),
            mana: stat(record.mana),
            hr: stat(record.hr),
            dr: stat(record.dr),
            ss: stat(record.ss),
            sbr: stat(record.sbr),
            spet: stat(record.spet),
            ac_apply: stat(record.ac_apply),
            align_restrictions: list(record.align_restrictions),
            class_restrictions: list(record.class_restrictions),
        }
    }

    /// The item as text: its name.
    pub fn to_string(&self) -> (text: String)
        ensures
            text@ == self@.name,
    {
        self.name.clone()
    }

    /// The score of the item.
    pub fn value(&self) -> (v: i32)
        ensures
            v == self@.value(),
    {
        let mut value: i32 = self.hp as i32;
        if self.mana > 0 {
            value = value + (self.mana / 2) as i32;
        }
        value = value + (self.hr as i32) * 5;
        value = value + (self.dr as i32) * 10;
        value = value - (self.ss as i32) * 4;
        value
    }

    /// The stand-in for an empty slot.
    pub fn none() -> (item: Item)
        ensures
            item@ == ItemView::placeholder(),
    {
        let locations = vec![
            Location::Light,
            Location::Finger,
            Location::Neck,
            Location::Body,
            Location::Head,
            Location::Legs,
            Location::Feet,
            Location::Hands,
            Location::Arms,
            Location::Offhand,
            Location::About,
            Location::Waist,
            Location::Wrist,
            Location::Wielded,
            Location::Held,
            Location::Aura,
            Location::Spirit,
        ];
        let mut item = Item::default();
        item.name = String::from_str("None");
        item.locations = locations;
        item
    }
}

} // verus!
