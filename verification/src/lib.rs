use vstd::prelude::*;

pub mod barcodes;
pub mod drawers;
pub mod elements;
pub mod error;
pub mod images;

pub use drawers::renderer::Renderer;
pub use elements::label_info::LabelInfo;
pub use error::LabelizeError;

verus! {
} // verus!
