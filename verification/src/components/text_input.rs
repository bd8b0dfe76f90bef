//! A text input field whose value is owned by the backend.
use vstd::prelude::*;
use vstd::string::*;

verus! {

/// The state of a text input: its text, and a version bumped on every change
/// made by the backend, so that the frontend knows when to copy the value.
#[derive(Debug)]
pub struct TextInput {
    text: String,
    version: u32,
}

impl TextInput {
    /// The current text.
    pub closed spec fn spec_text(&self) -> Seq<char> {
        self.text@
    }

    /// The number of changes made by the backend.
    pub closed spec fn spec_version(&self) -> u32 {
        self.version
    }

    /// An empty text input.
    pub fn new() -> (res: Self)
        ensures
            res.spec_text() == Seq::<char>::empty(),
            res.spec_version() == 0,
    {
        Self { text: String::new(), version: 0 }
    }

    /// Sets the text and bumps the version.
    pub fn set(&mut self, value: &str)
        requires
            old(self).spec_version() < u32::MAX,
        ensures
            final(self).spec_text() == value@,
            final(self).spec_version() == old(self).spec_version() + 1,
    {
        self.text = String::from_str(value);
        self.version += 1;
    }

    /// Returns the current text.
    pub fn get(&self) -> (res: &str)
        ensures
            res@ == self.spec_text(),
    {
        self.text.as_str()
    }
}

impl Default for TextInput {
    fn default() -> (res: Self)
        ensures
            res.spec_text() == Seq::<char>::empty(),
            res.spec_version() == 0,
    {
        Self::new()
    }
}

} // verus!
