pub mod renderer;
pub mod element_drawing;
pub mod label_canvas;
pub mod label_drawing;
