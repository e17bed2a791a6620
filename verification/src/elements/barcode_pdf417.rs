use vstd::prelude::*;

use super::field_orientation::FieldOrientation;
use super::label_position::LabelPosition;
use super::reverse_print::ReversePrint;

verus! {

/// The parameters of a PDF417 barcode.
#[derive(Clone, Debug)]
pub struct BarcodePdf417 {
    pub orientation: FieldOrientation,
    pub row_height: i32,
    pub columns: i32,
    pub rows: i32,
    pub truncate: bool,
}

/// A PDF417 barcode field with its content.
#[derive(Clone, Debug)]
pub struct BarcodePdf417WithData {
    pub reverse_print: ReversePrint,
    pub barcode: BarcodePdf417,
    pub position: LabelPosition,
    pub data: String,
}

} // verus!
