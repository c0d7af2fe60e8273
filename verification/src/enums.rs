use vstd::prelude::*;

verus! {

/// How the strength of a point-based force decays with distance.
#[derive(Debug, Clone, Copy, PartialEq, Eq)]
pub enum ForceDecayType {
    /// The force strength stays the same at every distance.
    Constant,
    /// The force strength falls with the distance.
    Linear,
    /// The force strength falls with the square of the distance.
    Quadratic,
}

/// The kind of an event that the game reports to the page.
#[derive(Debug, Clone, Copy, PartialEq, Eq)]
pub enum EventType {
    /// A body was selected.
    Selection,
    /// A body was let go.
    Deselection,
}

} // verus!
