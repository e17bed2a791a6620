use vstd::prelude::*;

use super::field_orientation::FieldOrientation;
use super::label_position::LabelPosition;
use super::reverse_print::ReversePrint;

verus! {

/// The parameters of a Data Matrix barcode; `height` is the module size.
#[derive(Clone, Debug)]
pub struct BarcodeDatamatrix {
    pub orientation: FieldOrientation,
    pub height: i32,
}

/// A Data Matrix barcode field with its content.
#[derive(Clone, Debug)]
pub struct BarcodeDatamatrixWithData {
    pub reverse_print: ReversePrint,
    pub barcode: BarcodeDatamatrix,
    pub position: LabelPosition,
    pub data: String,
}

} // verus!
