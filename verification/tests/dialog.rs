use greenhorn::dialog::native_dialogs::{
    dialog_kind, file_open_msg, file_open_multi_msg, file_save_msg, filter_patterns, native_filter,
    ok_cancel_default, ok_cancel_result, yes_no_default, yes_no_result, DialogKind,
};
use greenhorn::dialog::{
    Dialog, FileFilter, FileOpenDialog, FileOpenMsg, FileSaveDialog, FileSaveMsg, MessageBox,
    MessageBoxResult, MsgBoxIcon, MsgBoxType,
};

#[test]
fn message_box_constructors() {
    let b = MessageBox::new_yes_no("Title", "Question?");
    assert_eq!(b.box_type, MsgBoxType::YesNo);
    assert_eq!(b.title, "Title");
    assert_eq!(b.message, "Question?");
    assert_eq!(b.icon, MsgBoxIcon::Question);
    assert_eq!(b.default, MessageBoxResult::Yes);

    let b = MessageBox::new_ok_cancel("Window title", "Hello, World!");
    assert_eq!(b.box_type, MsgBoxType::OkCancel);
    assert_eq!(b.default, MessageBoxResult::Okay);

    let b = MessageBox::new_ok("T", "M").with_icon(MsgBoxIcon::Error).with_default_result(MessageBoxResult::Cancel);
    assert_eq!(b.box_type, MsgBoxType::Okay);
    assert_eq!(b.icon, MsgBoxIcon::Error);
    assert_eq!(b.default, MessageBoxResult::Cancel);
    assert_eq!(MessageBox::kind_name(), "MessageBox");
}

#[test]
fn file_dialogs() {
    let f = FileFilter::new("Rust").push("rs").push("toml");
    assert_eq!(f.name, "Rust");
    assert_eq!(f.extensions, vec!["rs".to_string(), "toml".to_string()]);
    let open = FileOpenDialog::new("Open", "/tmp").with_filter(f).allow_multiple();
    assert!(open.multiple);
    assert_eq!(open.title, "Open");
    assert_eq!(open.path, "/tmp");
    assert_eq!(open.filter.len(), 1);
    let g = FileFilter::new_with_extensions("Web", vec!["html".to_string(), "css".to_string()]);
    assert_eq!(g.name, "Web");
    assert_eq!(g.extensions.len(), 2);
    let save = FileSaveDialog::new("Save", "/home").with_filter(g);
    assert_eq!(save.filter.len(), 1);
    let save = FileSaveDialog::new("Save", "/home");
    assert!(save.filter.is_empty());
    assert_eq!(FileOpenDialog::kind_name(), "FileOpenDialog");
    assert_eq!(FileSaveDialog::kind_name(), "FileSaveDialog");
}

#[test]
fn dialog_kinds() {
    assert_eq!(dialog_kind(&MessageBox::kind_name().to_string()), Some(DialogKind::MessageBox));
    assert_eq!(dialog_kind(&"FileSaveDialog".to_string()), Some(DialogKind::FileSave));
    assert_eq!(dialog_kind(&"FileOpenDialog".to_string()), Some(DialogKind::FileOpen));
    assert_eq!(dialog_kind(&"fileopendialog".to_string()), None);
}

#[test]
fn native_filters() {
    let filters = vec![
        FileFilter::new("Images").push("png").push("jpg"),
        FileFilter::new("Text").push("txt"),
        FileFilter::new("None"),
    ];
    assert_eq!(filter_patterns(&filters), vec!["png".to_string(), "jpg".to_string(), "txt".to_string()]);
    let (patterns, description) = native_filter(&filters).unwrap();
    assert_eq!(patterns.len(), 3);
    assert_eq!(description, "Images");
    assert!(native_filter(&vec![]).is_none());
}

#[test]
fn native_answers() {
    assert!(matches!(file_save_msg(Some("/a".to_string())), FileSaveMsg::SaveTo(p) if p == "/a"));
    assert!(matches!(file_save_msg(None), FileSaveMsg::Canceled));
    assert!(matches!(file_open_msg(Some("/b".to_string())), FileOpenMsg::Selected(p) if p == "/b"));
    assert!(matches!(file_open_msg(None), FileOpenMsg::Canceled));
    assert!(matches!(file_open_multi_msg(Some(vec!["x".to_string()])), FileOpenMsg::SelectedMultiple(v) if v.len() == 1));
    assert!(matches!(file_open_multi_msg(None), FileOpenMsg::Canceled));
    assert!(ok_cancel_default(MessageBoxResult::Okay));
    assert!(!ok_cancel_default(MessageBoxResult::Cancel));
    assert_eq!(ok_cancel_result(true), MessageBoxResult::Okay);
    assert_eq!(ok_cancel_result(false), MessageBoxResult::Cancel);
    assert!(yes_no_default(MessageBoxResult::Yes));
    assert!(!yes_no_default(MessageBoxResult::No));
    assert_eq!(yes_no_result(true), MessageBoxResult::Yes);
    assert_eq!(yes_no_result(false), MessageBoxResult::No);
}

#[test]
fn filter_with_extensions_is_filter_with_pushes() {
    let a = FileFilter::new_with_extensions("Images", vec!["png".to_string(), "jpg".to_string(), "gif".to_string()]);
    let b = FileFilter::new("Images").push("png").push("jpg").push("gif");
    assert_eq!(a.name, b.name);
    assert_eq!(a.extensions, b.extensions);
}
