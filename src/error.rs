use vstd::prelude::*;

verus! {

/// What can go wrong in the editing core.
#[derive(Clone, Copy, Debug, PartialEq, Eq, Structural)]
pub enum Error {
    /// A row or column lies outside the buffer.
    OutOfBounds,
    /// No live pane has the given number.
    InvalidPaneId,
    /// Every pane slot is taken.
    PaneCapacityExceeded,
    /// The screen size is not known yet (it has no rows).
    ViewportUnknown,
}

} // verus!
