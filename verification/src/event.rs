//! Key-transition events produced by the debounce filter and consumed by the
//! layout driver.

use vstd::prelude::*;

verus! {

/// Whether a confirmed transition is a key going down or coming back up.
#[derive(Clone, Copy, PartialEq, Eq, Structural, Debug)]
pub enum EventKind {
    Press,
    Release,
}

/// A confirmed key transition at one matrix position.
#[derive(Clone, Copy, PartialEq, Eq, Structural, Debug)]
pub struct Event {
    pub kind: EventKind,
    pub row: u8,
    pub col: u8,
}

} // verus!
