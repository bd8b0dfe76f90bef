//! Built-in system dialogs: [`FileSaveDialog`], [`FileOpenDialog`] and [`MessageBox`].
//!
//! This module provides a common interface for these dialogs; a frontend shows
//! them and reports the result the dialog resolves to.
use vstd::prelude::*;

pub mod file_dialogs;
pub mod msg_box;
pub mod native_dialogs;

pub use file_dialogs::{FileFilter, FileOpenDialog, FileOpenMsg, FileSaveDialog, FileSaveMsg};
pub use msg_box::{MessageBox, MessageBoxResult, MsgBoxIcon, MsgBoxType};

verus! {

/// Implemented only by the dialogs of this crate.
pub trait Sealed {

}

/// Interface for modal dialogs.
pub trait Dialog: Sealed {
    /// A name uniquely identifying this type of dialog, so that its serialized
    /// form can be associated to its type.
    fn kind_name() -> &'static str;
}

} // verus!
