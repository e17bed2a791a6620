use vstd::prelude::*;

verus! {

/// How a field is aligned against its origin.
#[derive(Clone, Copy, Debug, PartialEq, Eq, Structural)]
pub enum FieldAlignment {
    Left,
    Right,
    Auto,
}

impl Default for FieldAlignment {
    fn default() -> (v: Self)
        ensures
            v == FieldAlignment::Left,
    {
        FieldAlignment::Left
    }
}

} // verus!
