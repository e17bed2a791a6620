pub mod barcode_128;
pub mod barcode_aztec;
pub mod barcode_datamatrix;
pub mod barcode_pdf417;
pub mod field_alignment;
pub mod field_block;
pub mod field_orientation;
pub mod font;
pub mod graphic_box;
pub mod graphic_circle;
pub mod graphic_diagonal_line;
pub mod graphic_field;
pub mod label_element;
pub mod label_info;
pub mod label_position;
pub mod line_color;
pub mod reverse_print;
pub mod stored_graphics;
pub mod text_alignment;
pub mod text_field;
