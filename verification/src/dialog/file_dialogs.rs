//! Dialogs for opening and saving files.
use super::{Dialog, Sealed};
use vstd::prelude::*;
use vstd::string::*;

verus! {

/// A filter in a [`FileOpenDialog`] or a [`FileSaveDialog`]: a name and a list
/// of file extensions (such as "js" or "rs").
#[derive(Debug)]
pub struct FileFilter {
    pub name: String,
    pub extensions: Vec<String>,
}

/// The views of a list of strings.
pub open spec fn strs_view(v: Seq<String>) -> Seq<Seq<char>> {
    v.map_values(|s: String| s@)
}

/// The extensions `exts` with each of `more` pushed, in order.
pub open spec fn push_all(exts: Seq<Seq<char>>, more: Seq<Seq<char>>) -> Seq<Seq<char>>
    decreases more.len(),
{
    if more.len() == 0 {
        exts
    } else {
        push_all(exts, more.drop_last()).push(more.last())
    }
}

/// A filter created with a list of extensions is the filter `new` creates
/// with each of the extensions then pushed, in order: same description, same
/// extensions in the same order.
pub proof fn lemma_new_with_extensions_is_pushes(filters: Seq<String>)
    ensures
        push_all(Seq::empty(), strs_view(filters)) == strs_view(filters),
    decreases filters.len(),
{
    if filters.len() > 0 {
        lemma_new_with_extensions_is_pushes(filters.drop_last());
        assert(strs_view(filters).drop_last() =~= strs_view(filters.drop_last()));
        assert(strs_view(filters.drop_last()).push(strs_view(filters).last()) =~= strs_view(filters));
    } else {
        assert(strs_view(filters) =~= Seq::<Seq<char>>::empty());
    }
}

impl FileFilter {
    /// Creates a filter with the given description and no extension.
    pub fn new(description: &str) -> (res: Self)
        ensures
            res.name@ == description@,
            res.extensions@.len() == 0,
    {
        Self { name: String::from_str(description), extensions: Vec::new() }
    }

    /// Creates a filter with a description and a list of extensions.
    pub fn new_with_extensions(description: &str, filters: Vec<String>) -> (res: Self)
        ensures
            res.name@ == description@,
            res.extensions@ == filters@,
    {
        Self { name: String::from_str(description), extensions: filters }
    }

    /// Appends an extension to the filter.
    pub fn push(self, filter: &str) -> (res: Self)
        ensures
            res.name@ == self.name@,
            strs_view(res.extensions@) == strs_view(self.extensions@).push(filter@),
    {
        let mut s = self;
        let f = String::from_str(filter);
        s.extensions.push(f);
        assert(strs_view(s.extensions@) =~= strs_view(self.extensions@).push(filter@));
        s
    }
}

/// The result of a [`FileOpenDialog`] once it is closed.
#[derive(Debug)]
pub enum FileOpenMsg {
    Canceled,
    Selected(String),
    SelectedMultiple(Vec<String>),
}

/// A system dialog for opening one or several files. Once closed it resolves
/// to a [`FileOpenMsg`].
#[derive(Debug)]
pub struct FileOpenDialog {
    pub filter: Vec<FileFilter>,
    pub multiple: bool,
    pub title: String,
    pub path: String,
}

impl FileOpenDialog {
    /// Creates a dialog with the given window title, opening at the given path.
    pub fn new(title: &str, path: &str) -> (res: Self)
        ensures
            res.filter@.len() == 0,
            !res.multiple,
            res.title@ == title@,
            res.path@ == path@,
    {
        Self {
            filter: Vec::new(),
            multiple: false,
            title: String::from_str(title),
            path: String::from_str(path),
        }
    }

    /// Adds a file filter.
    pub fn with_filter(self, filter: FileFilter) -> (res: Self)
        ensures
            res.filter@ == self.filter@.push(filter),
            res.multiple == self.multiple,
            res.title == self.title,
            res.path == self.path,
    {
        let mut s = self;
        s.filter.push(filter);
        s
    }

    /// Allows several files to be selected; the dialog then resolves to
    /// `FileOpenMsg::SelectedMultiple`.
    pub fn allow_multiple(self) -> (res: Self)
        ensures
            res.multiple,
            res.filter == self.filter,
            res.title == self.title,
            res.path == self.path,
    {
        let mut s = self;
        s.multiple = true;
        s
    }
}

impl Sealed for FileOpenDialog {

}

impl Dialog for FileOpenDialog {
    fn kind_name() -> (res: &'static str)
        ensures
            res@ == "FileOpenDialog"@,
    {
        "FileOpenDialog"
    }
}

/// The result of a [`FileSaveDialog`] once it is closed.
#[derive(Debug)]
pub enum FileSaveMsg {
    SaveTo(String),
    Canceled,
}

/// A system dialog for saving a file. Once closed it resolves to a [`FileSaveMsg`].
#[derive(Debug)]
pub struct FileSaveDialog {
    pub title: String,
    pub path: String,
    pub filter: Vec<FileFilter>,
}

impl FileSaveDialog {
    /// Creates a dialog with the given window title, opening at the given path.
    pub fn new(title: &str, path: &str) -> (res: Self)
        ensures
            res.filter@.len() == 0,
            res.title@ == title@,
            res.path@ == path@,
    {
        Self { filter: Vec::new(), title: String::from_str(title), path: String::from_str(path) }
    }

    /// Adds a file filter.
    pub fn with_filter(self, filter: FileFilter) -> (res: Self)
        ensures
            res.filter@ == self.filter@.push(filter),
            res.title == self.title,
            res.path == self.path,
    {
        let mut s = self;
        s.filter.push(filter);
        s
    }
}

impl Sealed for FileSaveDialog {

}

impl Dialog for FileSaveDialog {
    fn kind_name() -> (res: &'static str)
        ensures
            res@ == "FileSaveDialog"@,
    {
        "FileSaveDialog"
    }
}

} // verus!
