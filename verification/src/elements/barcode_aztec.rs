use vstd::prelude::*;

use super::field_orientation::FieldOrientation;
use super::label_position::LabelPosition;
use super::reverse_print::ReversePrint;

verus! {

/// The parameters of an Aztec barcode.
#[derive(Clone, Debug)]
pub struct BarcodeAztec {
    pub orientation: FieldOrientation,
    pub magnification: i32,
    pub size: i32,
}

/// An Aztec barcode field with its content.
#[derive(Clone, Debug)]
pub struct BarcodeAztecWithData {
    pub reverse_print: ReversePrint,
    pub barcode: BarcodeAztec,
    pub position: LabelPosition,
    pub data: String,
}

} // verus!
