use vstd::prelude::*;

verus! {

/// How the cells of one table column are aligned.
#[derive(Debug, PartialEq, Eq, Clone, Copy, Structural)]
pub enum Alignment {
    Left,
    Center,
    Right,
}

/// Where in the token stream the header row of the table being scanned begins.
///
/// Column tokens are found only when the separator row is read, after the
/// header cells were emitted; they are placed at this index so that they
/// stand in front of the header.
#[derive(Debug, Clone, Copy)]
pub struct State {
    pub table_index: usize,
}

impl State {
    /// The state of a table whose header begins at `table_index`.
    pub fn new(table_index: usize) -> (state: State)
        ensures
            state.table_index == table_index,
    {
        State { table_index }
    }
}

/// The alignment that the colons around a separator cell's dashes ask for:
/// centered with a colon at both ends, right with one at the end only, left
/// otherwise.
pub open spec fn alignment_of(leading_colon: bool, trailing_colon: bool) -> Alignment {
    if trailing_colon {
        if leading_colon {
            Alignment::Center
        } else {
            Alignment::Right
        }
    } else {
        Alignment::Left
    }
}

/// Resolves the alignment of a separator cell from the colons around its
/// dashes.
pub fn resolve_alignment(leading_colon: bool, trailing_colon: bool) -> (alignment: Alignment)
    ensures
        alignment == alignment_of(leading_colon, trailing_colon),
{
    if trailing_colon {
        if leading_colon {
            Alignment::Center
        } else {
            Alignment::Right
        }
    } else {
        Alignment::Left
    }
}

} // verus!
