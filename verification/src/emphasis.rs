use vstd::prelude::*;

verus! {

/// Which of the four kinds of emphasis are open. One state serves a whole
/// document: a delimiter inside a block quote toggles the same flag as one
/// outside it.
#[derive(Debug, PartialEq, Eq, Clone, Copy, Structural)]
pub struct State {
    pub bold: bool,
    pub italic: bool,
    pub strike: bool,
    pub underline: bool,
}

impl State {
    /// The state in which nothing is open.
    pub open spec fn closed() -> State {
        State { bold: false, italic: false, strike: false, underline: false }
    }

    /// The state at the start of a document: nothing is open.
    pub fn new() -> (state: State)
        ensures
            state == State::closed(),
    {
        State { bold: false, italic: false, strike: false, underline: false }
    }
}

} // verus!
