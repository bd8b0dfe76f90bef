//! Blobs transfer binary data, such as images, from the backend to the frontend.
use crate::node_builder::{new_builder, BlobBuilder, BlobBuilderView};
use crate::Id;
use vstd::prelude::*;
use vstd::string::*;

verus! {

/// `Blob`s allow transferring binary data from backend to frontend.
///
/// A `Blob` carries an `id`, which identifies its purpose within the
/// application, and a `hash`, which reflects its content (its version).
/// Two blobs are equal when both their ids and hashes are equal.
///
/// Blobs may carry javascript hooks run by the frontend:
///  * `on_change()`: run whenever the `hash` of a Blob changes but its `id` remains the same
///  * `on_add()`: run when the blob is added
#[derive(Debug)]
pub struct Blob {
    pub(crate) id: Id,
    pub(crate) hash: u64,
    pub(crate) data: Vec<u8>,
    pub(crate) mime_type: String,
    pub(crate) on_change: Option<String>,
    pub(crate) on_add: Option<String>,
}

/// A blob taken by its views.
pub struct BlobView {
    pub id: u64,
    pub hash: u64,
    pub data: Seq<u8>,
    pub mime_type: Seq<char>,
    pub on_change: Option<Seq<char>>,
    pub on_add: Option<Seq<char>>,
}

/// The view of an optional string.
pub open spec fn opt_view(s: Option<String>) -> Option<Seq<char>> {
    match s {
        Some(x) => Some(x@),
        None => None,
    }
}

/// The view of an optional string slice.
pub open spec fn opt_str_view(s: Option<&str>) -> Option<Seq<char>> {
    match s {
        Some(x) => Some(x@),
        None => None,
    }
}

/// Borrows the string held by an option.
pub(crate) fn opt_as_str(s: &Option<String>) -> (res: Option<&str>)
    ensures
        opt_str_view(res) == opt_view(*s),
{
    match s {
        Some(x) => Some(x.as_str()),
        None => None,
    }
}

/// Clones an optional string.
pub(crate) fn clone_opt_string(s: &Option<String>) -> (res: Option<String>)
    ensures
        opt_view(res) == opt_view(*s),
{
    match s {
        Some(x) => Some(x.clone()),
        None => None,
    }
}

/// Clones a byte vector.
pub(crate) fn clone_bytes(v: &Vec<u8>) -> (res: Vec<u8>)
    ensures
        res@ == v@,
{
    let mut out: Vec<u8> = Vec::with_capacity(v.len());
    let mut i: usize = 0;
    while i < v.len()
        invariant
            i <= v.len(),
            out@ == v@.take(i as int),
        decreases v.len() - i,
    {
        out.push(v[i]);
        i += 1;
        assert(out@ =~= v@.take(i as int));
    }
    assert(v@.take(v.len() as int) =~= v@);
    out
}

impl View for Blob {
    type V = BlobView;

    closed spec fn view(&self) -> BlobView {
        BlobView {
            id: self.id@,
            hash: self.hash,
            data: self.data@,
            mime_type: self.mime_type@,
            on_change: opt_view(self.on_change),
            on_add: opt_view(self.on_add),
        }
    }
}

impl Blob {
    /// Assembles a blob from its parts.
    pub(crate) fn from_parts(
        id: Id,
        hash: u64,
        data: Vec<u8>,
        mime_type: String,
        on_change: Option<String>,
        on_add: Option<String>,
    ) -> (res: Blob)
        ensures
            res@ == (BlobView {
                id: id@,
                hash,
                data: data@,
                mime_type: mime_type@,
                on_change: opt_view(on_change),
                on_add: opt_view(on_add),
            }),
    {
        Blob { id, hash, data, mime_type, on_change, on_add }
    }

    /// Starts building a blob whose content has the given hash.
    pub fn build(hash: u64) -> (res: BlobBuilder)
        ensures
            res@ == new_builder(hash),
    {
        BlobBuilder::with_hash(hash)
    }

    /// Returns the id associated with this blob.
    pub fn id(&self) -> (res: Id)
        ensures
            res@ == self@.id,
    {
        self.id
    }

    /// Returns the hash of the data associated with this blob.
    pub fn hash(&self) -> (res: u64)
        ensures
            res == self@.hash,
    {
        self.hash
    }

    /// Returns the data underlying the blob.
    pub fn data(&self) -> (res: &Vec<u8>)
        ensures
            res@ == self@.data,
    {
        &self.data
    }

    /// Returns the mime-type of the data.
    pub fn mime_type(&self) -> (res: &str)
        ensures
            res@ == self@.mime_type,
    {
        self.mime_type.as_str()
    }

    /// Returns the javascript run when the content of the blob changes,
    /// i.e. when its hash changes while its id remains the same.
    pub fn on_change(&self) -> (res: Option<&str>)
        ensures
            opt_str_view(res) == self@.on_change,
    {
        opt_as_str(&self.on_change)
    }

    /// Returns the javascript run when the blob is added to the frontend.
    pub fn on_add(&self) -> (res: Option<&str>)
        ensures
            opt_str_view(res) == self@.on_add,
    {
        opt_as_str(&self.on_add)
    }
}

impl Clone for Blob {
    fn clone(&self) -> (res: Blob)
        ensures
            res@ == self@,
    {
        Blob {
            id: self.id,
            hash: self.hash,
            data: clone_bytes(&self.data),
            mime_type: self.mime_type.clone(),
            on_change: clone_opt_string(&self.on_change),
            on_add: clone_opt_string(&self.on_add),
        }
    }
}

/// Two blobs are equal when their ids and their hashes are equal.
pub open spec fn blob_eq(a: BlobView, b: BlobView) -> bool {
    a.hash == b.hash && a.id == b.id
}

impl PartialEq for Blob {
    fn eq(&self, other: &Self) -> (res: bool) {
        self.hash == other.hash && self.id == other.id
    }
}

impl vstd::std_specs::cmp::PartialEqSpecImpl for Blob {
    open spec fn obeys_eq_spec() -> bool {
        true
    }

    open spec fn eq_spec(&self, other: &Self) -> bool {
        blob_eq(self@, other@)
    }
}

} // verus!
