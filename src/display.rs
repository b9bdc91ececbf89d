use vstd::prelude::*;

verus! {

/// Number of pins that drive LED columns.
pub const MATRIX_COLS: usize = 5;

/// Number of pins that drive LED rows.
pub const MATRIX_ROWS: usize = 5;

/// Number of visible LED columns.
pub const IMAGE_COLS: usize = 5;

/// Number of visible LED rows.
pub const IMAGE_ROWS: usize = 5;

/// Layout of the micro:bit's 5×5 LED display, where each pin row and column
/// drives the LED of the same row and column.
pub struct MicrobitMatrix();

impl MicrobitMatrix {
    /// The LED (x, y) coordinates, from the top left, for a pin row and column.
    pub fn image_coordinates(col: usize, row: usize) -> (r: Option<(usize, usize)>)
        ensures
            r == Some((col, row)),
    {
        Some((col, row))
    }
}

} // verus!
