//! Errors of loading html templates into nodes.
use vstd::prelude::*;

verus! {

/// Why a template could not be loaded.
#[derive(Debug)]
pub enum LoadError {
    /// The template could not be read.
    Io(std::io::Error),
    /// The html parser reported these errors.
    Parse(Vec<String>),
    /// The template holds no element and no text.
    Empty,
}

} // verus!
