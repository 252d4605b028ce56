use crate::item::Location;
use vstd::prelude::*;

verus! {

/// Number of slots that a full set of equipment fills.
pub const SLOT_COUNT: usize = 20;

/// One position to fill: a location, and which of the positions at that
/// location it is, counted from 0.
#[derive(Clone, Copy, Debug, PartialEq, Eq, Structural)]
pub struct Slot {
    pub location: Location,
    pub instance: u8,
}

/// The slots of a full set, in the order in which a set lists its items.
/// Finger, neck and wrist each occur twice.
pub open spec fn slot_sequence() -> Seq<Slot> {
    seq![
        Slot { location: Location::Light, instance: 0 },
        Slot { location: Location::Finger, instance: 0 },
        Slot { location: Location::Finger, instance: 1 },
        Slot { location: Location::Neck, instance: 0 },
        Slot { location: Location::Neck, instance: 1 },
        Slot { location: Location::Body, instance: 0 },
        Slot { location: Location::Head, instance: 0 },
        Slot { location: Location::Legs, instance: 0 },
        Slot { location: Location::Feet, instance: 0 },
        Slot { location: Location::Hands, instance: 0 },
        Slot { location: Location::Arms, instance: 0 },
        Slot { location: Location::Offhand, instance: 0 },
        Slot { location: Location::About, instance: 0 },
        Slot { location: Location::Waist, instance: 0 },
        Slot { location: Location::Wrist, instance: 0 },
        Slot { location: Location::Wrist, instance: 1 },
        Slot { location: Location::Wielded, instance: 0 },
        Slot { location: Location::Held, instance: 0 },
        Slot { location: Location::Aura, instance: 0 },
        Slot { location: Location::Spirit, instance: 0 },
    ]
}

impl Slot {
    /// The slot at position `i` of the slot sequence, if there is one.
    pub fn at(i: usize) -> (slot: Option<Slot>)
        ensures
            slot_sequence().len() == SLOT_COUNT,
            i < SLOT_COUNT ==> slot == Some(slot_sequence()[i as int]),
            i >= SLOT_COUNT ==> slot is None,
    {
        let (location, instance): (Location, u8) = match i {
            0 => (Location::Light, 0),
            1 => (Location::Finger, 0),
            2 => (Location::Finger, 1),
            3 => (Location::Neck, 0),
            4 => (Location::Neck, 1),
            5 => (Location::Body, 0),
            6 => (Location::Head, 0),
            7 => (Location::Legs, 0),
            8 => (Location::Feet, 0),
            9 => (Location::Hands, 0),
            10 => (Location::Arms, 0),
            11 => (Location::Offhand, 0),
            12 => (Location::About, 0),
            13 => (Location::Waist, 0),
            14 => (Location::Wrist, 0),
            15 => (Location::Wrist, 1),
            16 => (Location::Wielded, 0),
            17 => (Location::Held, 0),
            18 => (Location::Aura, 0),
            19 => (Location::Spirit, 0),
            _ => {
                return None;
            },
        };
        Some(Slot { location, instance })
    }
}

} // verus!
