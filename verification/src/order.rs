use crate::item::Item;
use std::cmp::Ordering;
use vstd::prelude::*;
use vstd::std_specs::cmp::PartialOrdSpecImpl;

verus! {

/// Items are ordered by their score: the item of the greater score is the
/// greater, and items of the same score are equal in order, whatever else
/// they hold.
impl PartialOrd for Item {
    fn partial_cmp(&self, other: &Item) -> (r: Option<Ordering>) {
        let mine: i32 = self.value();
        let theirs: i32 = other.value();
        if mine < theirs {
            Some(Ordering::Less)
        } else if mine == theirs {
            Some(Ordering::Equal)
        } else {
            Some(Ordering::Greater)
        }
    }
}

impl PartialOrdSpecImpl for Item {
    open spec fn obeys_partial_cmp_spec() -> bool {
        true
    }

    open spec fn partial_cmp_spec(&self, other: &Item) -> Option<Ordering> {
        if self@.value() < other@.value() {
            Some(Ordering::Less)
        } else if self@.value() == other@.value() {
            Some(Ordering::Equal)
        } else {
            Some(Ordering::Greater)
        }
    }
}

} // verus!
