//! Reads the hint sections of a randomizer's spoiler log into categorized
//! records of item, short location and long description.

pub mod extract;
pub mod hints;
pub mod recent;
pub mod search;
pub mod spoiler;
pub mod text;
