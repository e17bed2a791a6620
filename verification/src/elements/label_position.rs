use vstd::prelude::*;

verus! {

/// Where a field is placed on the label, in dots.
#[derive(Clone, Debug)]
pub struct LabelPosition {
    pub x: i32,
    pub y: i32,
    pub calculate_from_bottom: bool,
    pub automatic_position: bool,
}

impl Default for LabelPosition {
    fn default() -> (p: Self)
        ensures
            p.x == 0 && p.y == 0 && !p.calculate_from_bottom && !p.automatic_position,
    {
        LabelPosition { x: 0, y: 0, calculate_from_bottom: false, automatic_position: false }
    }
}

impl LabelPosition {
    /// This position moved by `other`'s offsets; the flags stay this position's.
    pub fn add(&self, other: &LabelPosition) -> (p: LabelPosition)
        requires
            i32::MIN <= self.x + other.x <= i32::MAX,
            i32::MIN <= self.y + other.y <= i32::MAX,
        ensures
            p.x == self.x + other.x,
            p.y == self.y + other.y,
            p.calculate_from_bottom == self.calculate_from_bottom,
            p.automatic_position == self.automatic_position,
    {
        LabelPosition {
            x: self.x + other.x,
            y: self.y + other.y,
            calculate_from_bottom: self.calculate_from_bottom,
            automatic_position: self.automatic_position,
        }
    }
}

} // verus!
