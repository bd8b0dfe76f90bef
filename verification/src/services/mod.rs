//! Built-in services.
pub mod element_size;
