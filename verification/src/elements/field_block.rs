use vstd::prelude::*;

use super::text_alignment::TextAlignment;

verus! {

/// A text block: word wrapping within `max_width` over at most `max_lines` lines.
#[derive(Clone, Debug)]
pub struct FieldBlock {
    pub max_width: i32,
    pub max_lines: i32,
    pub line_spacing: i32,
    pub alignment: TextAlignment,
    pub hanging_indent: i32,
}

impl Default for FieldBlock {
    fn default() -> (b: Self)
        ensures
            b.max_width == 0,
            b.max_lines == 1,
            b.line_spacing == 0,
            b.alignment == TextAlignment::Left,
            b.hanging_indent == 0,
    {
        FieldBlock { max_width: 0, max_lines: 1, line_spacing: 0, alignment: TextAlignment::Left, hanging_indent: 0 }
    }
}

} // verus!
