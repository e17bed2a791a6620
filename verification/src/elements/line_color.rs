use vstd::prelude::*;

verus! {

/// The colour that a graphic is drawn in.
#[derive(Clone, Copy, Debug, PartialEq, Eq, Structural)]
pub enum LineColor {
    Black,
    White,
}

impl Default for LineColor {
    fn default() -> (v: Self)
        ensures
            v == LineColor::Black,
    {
        LineColor::Black
    }
}

} // verus!
