use vstd::prelude::*;

use super::label_position::LabelPosition;
use super::reverse_print::ReversePrint;

verus! {

/// A bitmap given row by row, `row_bytes` bytes per row and the most significant bit of
/// each byte leftmost, drawn magnified.
#[derive(Clone, Debug)]
pub struct GraphicField {
    pub reverse_print: ReversePrint,
    pub position: LabelPosition,
    pub data: Vec<u8>,
    pub total_bytes: i32,
    pub row_bytes: i32,
    pub magnification_x: i32,
    pub magnification_y: i32,
}

} // verus!
