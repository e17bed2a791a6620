use vstd::prelude::*;

verus! {

/// The rotation of a field.
#[derive(Clone, Copy, Debug, PartialEq, Eq, Structural)]
pub enum FieldOrientation {
    Normal,
    Rotated90,
    Rotated180,
    Rotated270,
}

impl Default for FieldOrientation {
    fn default() -> (v: Self)
        ensures
            v == FieldOrientation::Normal,
    {
        FieldOrientation::Normal
    }
}

impl FieldOrientation {
    /// The clockwise rotation in degrees: 0, 90, 180 or 270.
    pub fn get_degrees(&self) -> (d: u32)
        ensures
            d == match *self {
                FieldOrientation::Normal => 0u32,
                FieldOrientation::Rotated90 => 90u32,
                FieldOrientation::Rotated180 => 180u32,
                FieldOrientation::Rotated270 => 270u32,
            },
    {
        match self {
            FieldOrientation::Normal => 0,
            FieldOrientation::Rotated90 => 90,
            FieldOrientation::Rotated180 => 180,
            FieldOrientation::Rotated270 => 270,
        }
    }
}

} // verus!
