use vstd::prelude::*;

use super::field_orientation::FieldOrientation;
use super::label_position::LabelPosition;
use super::reverse_print::ReversePrint;

verus! {

/// The Code 128 mode of a barcode field: `No` reads subset switches from the content,
/// every other mode encodes the content automatically.
#[derive(Clone, Copy, Debug, PartialEq, Eq, Structural)]
pub enum BarcodeMode {
    No,
    Ucc,
    Automatic,
    Ean,
}

/// The parameters of a Code 128 barcode.
#[derive(Clone, Debug)]
pub struct Barcode128 {
    pub orientation: FieldOrientation,
    pub height: i32,
    pub line: bool,
    pub mode: BarcodeMode,
}

/// A Code 128 barcode field with its content and module width.
#[derive(Clone, Debug)]
pub struct Barcode128WithData {
    pub reverse_print: ReversePrint,
    pub barcode: Barcode128,
    pub position: LabelPosition,
    pub width: i32,
    pub data: String,
}

} // verus!
