//! The decisions around showing a dialog as a native system dialog: which
//! dialog a serialized request names, what the system is asked to show, and
//! what the answer of the system resolves to.
use super::file_dialogs::{strs_view, FileFilter, FileOpenMsg, FileSaveMsg};
use super::msg_box::MessageBoxResult;
use vstd::prelude::*;
use vstd::string::*;

verus! {

/// The kinds of dialogs that can be shown natively.
#[derive(Clone, Copy, Debug, PartialEq, Eq, Structural)]
pub enum DialogKind {
    MessageBox,
    FileSave,
    FileOpen,
}

/// The kind of dialog named by the type tag of a serialized dialog.
pub open spec fn spec_dialog_kind(name: Seq<char>) -> Option<DialogKind> {
    if name == "MessageBox"@ {
        Some(DialogKind::MessageBox)
    } else if name == "FileSaveDialog"@ {
        Some(DialogKind::FileSave)
    } else if name == "FileOpenDialog"@ {
        Some(DialogKind::FileOpen)
    } else {
        None
    }
}

/// Returns the kind of dialog named by the type tag of a serialized dialog,
/// or `None` if the tag names none.
pub fn dialog_kind(name: &String) -> (res: Option<DialogKind>)
    ensures
        res == spec_dialog_kind(name@),
{
    if *name == String::from_str("MessageBox") {
        Some(DialogKind::MessageBox)
    } else if *name == String::from_str("FileSaveDialog") {
        Some(DialogKind::FileSave)
    } else if *name == String::from_str("FileOpenDialog") {
        Some(DialogKind::FileOpen)
    } else {
        None
    }
}

/// The extensions of all filters, the first filter's first.
pub open spec fn flat_extensions(filters: Seq<FileFilter>) -> Seq<Seq<char>>
    decreases filters.len(),
{
    if filters.len() == 0 {
        Seq::empty()
    } else {
        flat_extensions(filters.drop_last()) + strs_view(filters.last().extensions@)
    }
}

/// Returns the extensions of all filters, the first filter's first.
pub fn filter_patterns(filters: &Vec<FileFilter>) -> (res: Vec<String>)
    ensures
        strs_view(res@) == flat_extensions(filters@),
{
    let mut out: Vec<String> = Vec::new();
    let mut i: usize = 0;
    while i < filters.len()
        invariant
            0 <= i <= filters.len(),
            strs_view(out@) == flat_extensions(filters@.take(i as int)),
        decreases filters.len() - i,
    {
        let exts = &filters[i].extensions;
        let ghost before = out@;
        let mut k: usize = 0;
        while k < exts.len()
            invariant
                0 <= k <= exts.len(),
                i < filters.len(),
                exts == filters@[i as int].extensions,
                strs_view(out@) == strs_view(before) + strs_view(exts@.take(k as int)),
            decreases exts.len() - k,
        {
            let ghost prev = out@;
            out.push(exts[k].clone());
            assert(strs_view(out@) =~= strs_view(prev).push(exts@[k as int]@));
            assert(strs_view(exts@.take(k + 1)) =~= strs_view(exts@.take(k as int)).push(
                exts@[k as int]@,
            ));
            assert(strs_view(out@) =~= strs_view(before) + strs_view(exts@.take(k + 1)));
            k = k + 1;
        }
        assert(exts@.take(k as int) =~= exts@);
        assert(filters@.take(i + 1).drop_last() =~= filters@.take(i as int));
        i = i + 1;
    }
    assert(filters@.take(i as int) =~= filters@);
    out
}

/// Returns the filter handed to a native file dialog: none without filters,
/// else the extensions of all filters, described by the name of the first.
pub fn native_filter(filters: &Vec<FileFilter>) -> (res: Option<(Vec<String>, String)>)
    ensures
        res is None <==> filters@.len() == 0,
        res matches Some((patterns, description)) ==> strs_view(patterns@) == flat_extensions(
            filters@,
        ) && description@ == filters@[0].name@,
{
    if filters.len() == 0 {
        None
    } else {
        Some((filter_patterns(filters), filters[0].name.clone()))
    }
}

/// What a file save dialog resolves to, given the path the user chose, if any.
pub fn file_save_msg(answer: Option<String>) -> (res: FileSaveMsg)
    ensures
        match answer {
            Some(p) => res == FileSaveMsg::SaveTo(p),
            None => res == FileSaveMsg::Canceled,
        },
{
    match answer {
        Some(p) => FileSaveMsg::SaveTo(p),
        None => FileSaveMsg::Canceled,
    }
}

/// What a file open dialog for a single file resolves to, given the file the
/// user chose, if any.
pub fn file_open_msg(answer: Option<String>) -> (res: FileOpenMsg)
    ensures
        match answer {
            Some(p) => res == FileOpenMsg::Selected(p),
            None => res == FileOpenMsg::Canceled,
        },
{
    match answer {
        Some(p) => FileOpenMsg::Selected(p),
        None => FileOpenMsg::Canceled,
    }
}

/// What a file open dialog for several files resolves to, given the files the
/// user chose, if any.
pub fn file_open_multi_msg(answer: Option<Vec<String>>) -> (res: FileOpenMsg)
    ensures
        match answer {
            Some(p) => res == FileOpenMsg::SelectedMultiple(p),
            None => res == FileOpenMsg::Canceled,
        },
{
    match answer {
        Some(p) => FileOpenMsg::SelectedMultiple(p),
        None => FileOpenMsg::Canceled,
    }
}

/// Whether "Ok" is the default button of an ok/cancel message box whose
/// default result is `default`.
pub fn ok_cancel_default(default: MessageBoxResult) -> (ok: bool)
    requires
        default == MessageBoxResult::Okay || default == MessageBoxResult::Cancel,
    ensures
        ok == (default == MessageBoxResult::Okay),
{
    match default {
        MessageBoxResult::Okay => true,
        _ => false,
    }
}

/// What an ok/cancel message box resolves to: `Okay` if the user pressed
/// "Ok", `Cancel` otherwise.
pub fn ok_cancel_result(ok: bool) -> (res: MessageBoxResult)
    ensures
        res == (if ok { MessageBoxResult::Okay } else { MessageBoxResult::Cancel }),
{
    if ok {
        MessageBoxResult::Okay
    } else {
        MessageBoxResult::Cancel
    }
}

/// Whether "Yes" is the default button of a yes/no message box whose default
/// result is `default`.
pub fn yes_no_default(default: MessageBoxResult) -> (yes: bool)
    requires
        default == MessageBoxResult::Yes || default == MessageBoxResult::No,
    ensures
        yes == (default == MessageBoxResult::Yes),
{
    match default {
        MessageBoxResult::Yes => true,
        _ => false,
    }
}

/// What a yes/no message box resolves to: `Yes` if the user pressed "Yes",
/// `No` otherwise.
pub fn yes_no_result(yes: bool) -> (res: MessageBoxResult)
    ensures
        res == (if yes { MessageBoxResult::Yes } else { MessageBoxResult::No }),
{
    if yes {
        MessageBoxResult::Yes
    } else {
        MessageBoxResult::No
    }
}

} // verus!
