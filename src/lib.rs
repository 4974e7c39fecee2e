pub mod canvas;
pub mod color;
pub mod editor;
pub mod geometry;
pub mod history;
pub mod mode;
