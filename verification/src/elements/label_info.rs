use vstd::prelude::*;

use super::label_element::LabelElement;

verus! {

/// A parsed label: its print width in dots (0 when not set), whether it is printed upside
/// down, and its elements in drawing order.
#[derive(Clone, Debug)]
pub struct LabelInfo {
    pub print_width: i32,
    pub inverted: bool,
    pub elements: Vec<LabelElement>,
}

} // verus!
