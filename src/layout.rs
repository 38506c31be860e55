//! Placement of text on the screen beside the field.

use vstd::prelude::*;

verus! {

/// Columns kept free on the left for the field.
pub const LEFT_EDGE: u16 = 25;

/// The column where text of `len` characters starts so that it is centred in
/// the part of a screen of `cols` columns right of `LEFT_EDGE`; at
/// `LEFT_EDGE` itself when the text does not fit.
pub fn centered_column(cols: u16, len: u16) -> (c: u16)
    ensures
        cols < LEFT_EDGE + len ==> c == LEFT_EDGE,
        cols >= LEFT_EDGE + len ==> c == (cols - LEFT_EDGE - len) / 2 + LEFT_EDGE,
{
    if (cols as u32) < LEFT_EDGE as u32 + len as u32 {
        LEFT_EDGE
    } else {
        (cols - LEFT_EDGE - len) / 2 + LEFT_EDGE
    }
}

} // verus!
