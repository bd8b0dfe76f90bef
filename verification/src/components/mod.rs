//! Built-in components.
pub mod image;
pub mod text_input;
