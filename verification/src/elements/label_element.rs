use vstd::prelude::*;

use super::barcode_128::Barcode128WithData;
use super::barcode_aztec::BarcodeAztecWithData;
use super::barcode_datamatrix::BarcodeDatamatrixWithData;
use super::barcode_pdf417::BarcodePdf417WithData;
use super::graphic_box::GraphicBox;
use super::graphic_circle::GraphicCircle;
use super::graphic_diagonal_line::GraphicDiagonalLine;
use super::graphic_field::GraphicField;
use super::text_field::TextField;

verus! {

/// An element of a label.
#[derive(Clone, Debug)]
pub enum LabelElement {
    Text(TextField),
    GraphicBox(GraphicBox),
    GraphicCircle(GraphicCircle),
    DiagonalLine(GraphicDiagonalLine),
    GraphicField(GraphicField),
    Barcode128(Barcode128WithData),
    BarcodePdf417(BarcodePdf417WithData),
    BarcodeAztec(BarcodeAztecWithData),
    BarcodeDatamatrix(BarcodeDatamatrixWithData),
}

/// Whether an element is printed in reverse.
pub open spec fn reverse_printed(element: LabelElement) -> bool {
    match element {
        LabelElement::Text(e) => e.reverse_print.value,
        LabelElement::GraphicBox(e) => e.reverse_print.value,
        LabelElement::GraphicCircle(e) => e.reverse_print.value,
        LabelElement::DiagonalLine(e) => e.reverse_print.value,
        LabelElement::GraphicField(e) => e.reverse_print.value,
        LabelElement::Barcode128(e) => e.reverse_print.value,
        LabelElement::BarcodePdf417(e) => e.reverse_print.value,
        LabelElement::BarcodeAztec(e) => e.reverse_print.value,
        LabelElement::BarcodeDatamatrix(e) => e.reverse_print.value,
    }
}

impl LabelElement {
    /// Whether the element is printed in reverse.
    pub fn is_reverse_print(&self) -> (r: bool)
        ensures
            r == reverse_printed(*self),
    {
        match self {
            LabelElement::Text(e) => e.reverse_print.is_reverse_print(),
            LabelElement::GraphicBox(e) => e.reverse_print.is_reverse_print(),
            LabelElement::GraphicCircle(e) => e.reverse_print.is_reverse_print(),
            LabelElement::DiagonalLine(e) => e.reverse_print.is_reverse_print(),
            LabelElement::GraphicField(e) => e.reverse_print.is_reverse_print(),
            LabelElement::Barcode128(e) => e.reverse_print.is_reverse_print(),
            LabelElement::BarcodePdf417(e) => e.reverse_print.is_reverse_print(),
            LabelElement::BarcodeAztec(e) => e.reverse_print.is_reverse_print(),
            LabelElement::BarcodeDatamatrix(e) => e.reverse_print.is_reverse_print(),
        }
    }
}

} // verus!
