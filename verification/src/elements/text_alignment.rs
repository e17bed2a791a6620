use vstd::prelude::*;

verus! {

/// How the lines of a text block are aligned.
#[derive(Clone, Copy, Debug, PartialEq, Eq, Structural)]
pub enum TextAlignment {
    Left,
    Right,
    Justified,
    Center,
}

impl Default for TextAlignment {
    fn default() -> (v: Self)
        ensures
            v == TextAlignment::Left,
    {
        TextAlignment::Left
    }
}

} // verus!
