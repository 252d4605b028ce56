use crate::error::Error;
use crate::item::{lemma_value_bounds, Item, ItemView};
use crate::slot::{slot_sequence, Slot, SLOT_COUNT};
use crate::text::{decimal, push_decimal, push_spaces, spaces};
use vstd::prelude::*;

verus! {

/// The sum of the scores of a list of items.
pub open spec fn total_value(items: Seq<ItemView>) -> int
    decreases items.len(),
{
    if items.len() == 0 {
        0
    } else {
        total_value(items.drop_last()) + items.last().value()
    }
}

/// Items without a score add up to nothing.
pub proof fn lemma_total_of_worthless(items: Seq<ItemView>)
    requires
        forall|i: int| 0 <= i < items.len() ==> (#[trigger] items[i]).value() == 0,
    ensures
        total_value(items) == 0,
    decreases items.len(),
{
    if items.len() > 0 {
        lemma_total_of_worthless(items.drop_last());
    }
}

/// Width to which a slot's label is padded with spaces, so that the item
/// names line up.
pub const LABEL_WIDTH: usize = 8;

/// The line that shows the item in a slot: four spaces, the label of the
/// slot's location, a colon, spaces up to the width of the longest label
/// and at least one, the item's name, and a line feed.
pub open spec fn slot_line(slot: Slot, item: ItemView) -> Seq<char> {
    let label = slot.location.label_text();
    let gap: nat = if label.len() < LABEL_WIDTH {
        (LABEL_WIDTH - label.len()) as nat
    } else {
        1
    };
    "    "@ + label + ":"@ + spaces(gap) + item.name + "\n"@
}

/// The lines for the first `count` slots, in the order of the slot sequence.
pub open spec fn slot_lines(items: Seq<ItemView>, count: nat) -> Seq<char>
    decreases count,
{
    if count == 0 {
        Seq::empty()
    } else {
        slot_lines(items, (count - 1) as nat) + slot_line(
            slot_sequence()[count - 1],
            items[count - 1],
        )
    }
}

/// Mathematical content of an [`ItemSet`]: the chosen items in the order of
/// the slot sequence, and their total value.
pub struct ItemSetView {
    pub value: int,
    pub items: Seq<ItemView>,
}

/// One item for each slot, with the sum of their scores.
pub struct ItemSet<'a> {
    value: i32,
    items: Vec<&'a Item>,
}

impl<'a> View for ItemSet<'a> {
    type V = ItemSetView;

    closed spec fn view(&self) -> ItemSetView {
        ItemSetView { value: self.value as int, items: self.items.deep_view() }
    }
}

impl ItemSetView {
    /// The set as text: a line with the total value, then one line for each
    /// slot in the order of the slot sequence.
    pub open spec fn text(self) -> Seq<char> {
        "The set has a total value of "@ + decimal(self.value) + "\n"@ + slot_lines(
            self.items,
            SLOT_COUNT as nat,
        )
    }
}

impl<'a> ItemSet<'a> {
    #[verifier::type_invariant]
    closed spec fn well_formed(&self) -> bool {
        &&& self.items.len() == SLOT_COUNT
        &&& self.value == total_value(self.items.deep_view())
    }

    /// Fills the slots with the first items of `items`, in the order of the
    /// slot sequence. Items beyond the last slot are left out. A list that
    /// is too short names the first slot that stays empty.
    pub fn try_from(items: Vec<&'a Item>) -> (r: Result<ItemSet<'a>, Error>)
        ensures
            match r {
                Ok(set) => {
                    &&& items.len() >= SLOT_COUNT
                    &&& set@.items == items.deep_view().take(SLOT_COUNT as int)
                    &&& set@.value == total_value(set@.items)
                },
                Err(Error::MissingItem(slot)) => {
                    &&& items.len() < SLOT_COUNT
                    &&& slot == slot_sequence()[items.len() as int]
                },
                Err(_) => false,
            },
    {
        let mut items = items;
        let ghost given = items.deep_view();
        match Slot::at(items.len()) {
            Some(slot) => Err(Error::MissingItem(slot)),
            None => {
                items.truncate(SLOT_COUNT);
                assert(items.deep_view() == given.take(SLOT_COUNT as int));
                let mut value: i32 = 0;
                let mut i: usize = 0;
                while i < SLOT_COUNT
                    invariant
                        i <= SLOT_COUNT,
                        items.len() == SLOT_COUNT,
                        value == total_value(items.deep_view().take(i as int)),
                        -2556 * i <= value <= 2607 * i,
                    decreases SLOT_COUNT - i,
                {
                    proof {
                        let views = items.deep_view();
                        assert(views.take(i + 1).drop_last() == views.take(i as int));
                        assert(views.take(i + 1).last() == items@[i as int]@);
                        lemma_value_bounds(items@[i as int]@);
                    }
                    value = value + items[i].value();
                    i = i + 1;
                }
                assert(items.deep_view().take(SLOT_COUNT as int) == items.deep_view());
                Ok(ItemSet { value, items })
            },
        }
    }

    /// The set as text.
    pub fn to_string(&self) -> (text: String)
        ensures
            text@ == self@.text(),
    {
        proof {
            use_type_invariant(self);
        }
        let mut text = String::from_str("The set has a total value of ");
        push_decimal(&mut text, self.value);
        text.append("\n");
        let mut i: usize = 0;
        while i < SLOT_COUNT
            invariant
                i <= SLOT_COUNT,
                self.items.len() == SLOT_COUNT,
                text@ == "The set has a total value of "@ + decimal(self.value as int) + "\n"@
                    + slot_lines(self.items.deep_view(), i as nat),
            decreases SLOT_COUNT - i,
        {
            let slot = Slot::at(i).unwrap();
            let label = slot.location.label();
            let used = label.unicode_len();
            text.append("    ");
            text.append(label);
            text.append(":");
            push_spaces(
                &mut text,
                if used < LABEL_WIDTH {
                    LABEL_WIDTH - used
                } else {
                    1
                },
            );
            text.append(self.items[i].name.as_str());
            text.append("\n");
            i = i + 1;
            assert(text@ == "The set has a total value of "@ + decimal(self.value as int) + "\n"@
                + slot_lines(self.items.deep_view(), i as nat));
        }
        text
    }

    /// The chosen items, in the order of the slot sequence.
    pub fn items(&self) -> (items: &Vec<&'a Item>)
        ensures
            items.deep_view() == self@.items,
            items.len() == SLOT_COUNT,
    {
        proof {
            use_type_invariant(self);
        }
        &self.items
    }

    /// The total value of the set: the sum of the scores of its items.
    pub fn value(&self) -> (v: i32)
        ensures
            v == self@.value,
            v == total_value(self@.items),
            self@.items.len() == SLOT_COUNT,
    {
        proof {
            use_type_invariant(self);
        }
        self.value
    }
}

} // verus!
