//! Pop-up message boxes.
use super::{Dialog, Sealed};
use vstd::prelude::*;
use vstd::string::*;

verus! {

/// The type of message box, according to the buttons of the window.
#[derive(Clone, Copy, Debug, PartialEq, Eq, Structural)]
pub enum MsgBoxType {
    Okay,
    OkCancel,
    YesNo,
}

/// The icon of a message box.
#[derive(Clone, Copy, Debug, PartialEq, Eq, Structural)]
pub enum MsgBoxIcon {
    Info,
    Warning,
    Error,
    Question,
}

/// The result a message box resolves to once it is closed.
#[derive(Clone, Copy, Debug, PartialEq, Eq, Structural)]
pub enum MessageBoxResult {
    Okay,
    Cancel,
    Yes,
    No,
}

/// A message box dialog.
#[derive(Debug)]
pub struct MessageBox {
    pub box_type: MsgBoxType,
    pub title: String,
    pub message: String,
    pub icon: MsgBoxIcon,
    pub default: MessageBoxResult,
}

impl MessageBox {
    /// A message box with a "Yes" and a "No" button; "Yes" is the default.
    pub fn new_yes_no(title: &str, message: &str) -> (res: Self)
        ensures
            res.box_type == MsgBoxType::YesNo,
            res.title@ == title@,
            res.message@ == message@,
            res.icon == MsgBoxIcon::Question,
            res.default == MessageBoxResult::Yes,
    {
        Self {
            box_type: MsgBoxType::YesNo,
            title: String::from_str(title),
            message: String::from_str(message),
            icon: MsgBoxIcon::Question,
            default: MessageBoxResult::Yes,
        }
    }

    /// A message box with an "Ok" and a "Cancel" button; "Ok" is the default.
    pub fn new_ok_cancel(title: &str, message: &str) -> (res: Self)
        ensures
            res.box_type == MsgBoxType::OkCancel,
            res.title@ == title@,
            res.message@ == message@,
            res.icon == MsgBoxIcon::Question,
            res.default == MessageBoxResult::Okay,
    {
        Self {
            box_type: MsgBoxType::OkCancel,
            title: String::from_str(title),
            message: String::from_str(message),
            icon: MsgBoxIcon::Question,
            default: MessageBoxResult::Okay,
        }
    }

    /// A message box with an "Ok" button.
    pub fn new_ok(title: &str, message: &str) -> (res: Self)
        ensures
            res.box_type == MsgBoxType::Okay,
            res.title@ == title@,
            res.message@ == message@,
            res.icon == MsgBoxIcon::Info,
            res.default == MessageBoxResult::Okay,
    {
        Self {
            box_type: MsgBoxType::Okay,
            title: String::from_str(title),
            message: String::from_str(message),
            icon: MsgBoxIcon::Info,
            default: MessageBoxResult::Okay,
        }
    }

    /// Sets the icon of the dialog.
    pub fn with_icon(self, icon: MsgBoxIcon) -> (res: Self)
        ensures
            res == (MessageBox { icon, ..self }),
    {
        let mut x = self;
        x.icon = icon;
        x
    }

    /// Sets the default result of the dialog.
    pub fn with_default_result(self, default: MessageBoxResult) -> (res: Self)
        ensures
            res == (MessageBox { default, ..self }),
    {
        let mut x = self;
        x.default = default;
        x
    }
}

impl Sealed for MessageBox {

}

impl Dialog for MessageBox {
    fn kind_name() -> (res: &'static str)
        ensures
            res@ == "MessageBox"@,
    {
        "MessageBox"
    }
}

} // verus!
