use vstd::prelude::*;

use super::label_position::LabelPosition;
use super::line_color::LineColor;
use super::reverse_print::ReversePrint;

verus! {

/// A diagonal line across the box `width` by `height` at `position`, from the top-left
/// corner down or from the bottom-left corner up.
#[derive(Clone, Debug)]
pub struct GraphicDiagonalLine {
    pub reverse_print: ReversePrint,
    pub position: LabelPosition,
    pub width: i32,
    pub height: i32,
    pub line_color: LineColor,
    pub top_to_bottom: bool,
}

} // verus!
