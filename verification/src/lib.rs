//! Picks the highest-valued set of equipment for a character: one item per
//! equipment slot, drawn from the items the character is allowed to use.

pub mod character;
pub mod error;
pub mod item;
pub mod itemset;
pub mod optimizer;
pub mod order;
pub mod product;
pub mod slot;
pub mod text;
