//! An image whose pixels are sent to the frontend as a blob.
use crate::blob::{opt_view, Blob, BlobView};
use crate::text::{decimal, push_decimal};
use crate::Id;
use vstd::prelude::*;
use vstd::string::*;

verus! {

/// An image shown in an `img` element with a given html id.
#[derive(Debug)]
pub struct Image {
    blob: Blob,
    html_id: String,
}

/// Collects the parts of an [`Image`].
#[derive(Debug)]
pub struct ImageBuilder {
    data: Vec<u8>,
    mime_type: String,
    html_id: Option<String>,
}

/// An image builder taken by its views.
pub struct ImageBuilderView {
    pub data: Seq<u8>,
    pub mime_type: Seq<char>,
    pub html_id: Option<Seq<char>>,
}

impl View for ImageBuilder {
    type V = ImageBuilderView;

    closed spec fn view(&self) -> ImageBuilderView {
        ImageBuilderView {
            data: self.data@,
            mime_type: self.mime_type@,
            html_id: opt_view(self.html_id),
        }
    }
}

impl ImageBuilder {
    /// Sets the html id of the `img` element.
    pub fn id(self, id: &str) -> (res: Self)
        ensures
            res@ == (ImageBuilderView { html_id: Some(id@), ..self@ }),
    {
        let mut s = self;
        s.html_id = Some(String::from_str(id));
        s
    }

    /// Sets the encoded image data.
    pub fn data(self, data: Vec<u8>) -> (res: Self)
        ensures
            res@ == (ImageBuilderView { data: data@, ..self@ }),
    {
        let mut s = self;
        s.data = data;
        s
    }

    /// Sets the mime-type of the image data.
    pub fn mime_type(self, mime_type: &str) -> (res: Self)
        ensures
            res@ == (ImageBuilderView { mime_type: mime_type@, ..self@ }),
    {
        let mut s = self;
        s.mime_type = String::from_str(mime_type);
        s
    }
}

/// The javascript that shows the blob in the element: first part.
pub const IMAGE_JS_START: &'static str = "{
            var elem = document.getElementById('";

/// The javascript that shows the blob in the element: middle part.
pub const IMAGE_JS_MIDDLE: &'static str = "');
            var blob = app.getBlob(";

/// The javascript that shows the blob in the element: last part.
pub const IMAGE_JS_END: &'static str = ");
            var img_url = URL.createObjectURL(blob.blob);
            elem.src = img_url;
        }";

/// The javascript run when the blob of the image changes: it loads the blob
/// `blob_id` into the element with id `html_id`.
pub open spec fn image_js(html_id: Seq<char>, blob_id: u64) -> Seq<char> {
    IMAGE_JS_START@ + html_id + IMAGE_JS_MIDDLE@ + decimal(blob_id as nat) + IMAGE_JS_END@
}

/// The html id given to an image without one: `__id_` and the blob id as displayed.
pub open spec fn default_html_id(blob_id: u64) -> Seq<char> {
    "__id_Id("@ + decimal(blob_id as nat) + ")"@
}

/// The blob of an image: its id, data and mime-type, and the javascript that
/// shows it; its hash is fresh.
pub open spec fn image_blob(b: BlobView, html_id: Seq<char>, blob_id: u64, data: Seq<u8>, mime_type: Seq<char>) -> bool {
    &&& b.id == blob_id
    &&& b.hash != 0
    &&& b.data == data
    &&& b.mime_type == mime_type
    &&& b.on_change == Some(image_js(html_id, blob_id))
    &&& b.on_add is None
}

impl Image {
    /// The blob holding the image data.
    pub closed spec fn spec_blob(&self) -> BlobView {
        self.blob@
    }

    /// The html id of the element showing the image.
    pub closed spec fn spec_html_id(&self) -> Seq<char> {
        self.html_id@
    }

    /// Builds the blob of an image whose content has the hash `hash`.
    fn build_blob(html_id: &str, blob_id: Id, data: Vec<u8>, mime_type: String, hash: u64) -> (res: Blob)
        requires
            hash != 0,
        ensures
            image_blob(res@, html_id@, blob_id@, data@, mime_type@),
            res@.hash == hash,
    {
        let mut js = String::from_str(IMAGE_JS_START);
        js.append(html_id);
        js.append(IMAGE_JS_MIDDLE);
        push_decimal(blob_id.data(), &mut js);
        js.append(IMAGE_JS_END);
        assert(js@ =~= image_js(html_id@, blob_id@));
        let b = Blob::build(hash).data(data).mime_type(mime_type.as_str()).id(
            blob_id,
        ).on_change(js.as_str());
        b.build()
    }

    /// Starts building an image.
    pub fn build() -> (res: ImageBuilder)
        ensures
            res@ == (ImageBuilderView {
                data: Seq::<u8>::empty(),
                mime_type: Seq::<char>::empty(),
                html_id: None,
            }),
    {
        let r = ImageBuilder { data: Vec::new(), mime_type: String::new(), html_id: None };
        r
    }

    /// Replaces the image data; the blob keeps its id and mime-type and gets a
    /// fresh hash, different from the old one, so that the frontend fetches
    /// the new content.
    pub fn update(&mut self, data: Vec<u8>)
        ensures
            final(self).spec_html_id() == old(self).spec_html_id(),
            final(self).spec_blob().hash != old(self).spec_blob().hash,
            image_blob(
                final(self).spec_blob(),
                old(self).spec_html_id(),
                old(self).spec_blob().id,
                data@,
                old(self).spec_blob().mime_type,
            ),
    {
        let mime = String::from_str(self.blob.mime_type());
        let old_hash = self.blob.hash();
        let drawn = Id::new().data();
        let hash = if drawn != old_hash {
            drawn
        } else if old_hash == u64::MAX {
            1
        } else {
            old_hash + 1
        };
        let blob = Image::build_blob(self.html_id.as_str(), self.blob.id(), data, mime, hash);
        self.blob = blob;
    }
}

impl From<ImageBuilder> for Image {
    /// Builds the image: a fresh blob id, and the given html id or one derived
    /// from the blob id.
    fn from(builder: ImageBuilder) -> (res: Image)
        ensures
            res.spec_blob().id != 0,
            res.spec_html_id() == match builder@.html_id {
                Some(h) => h,
                None => default_html_id(res.spec_blob().id),
            },
            image_blob(
                res.spec_blob(),
                res.spec_html_id(),
                res.spec_blob().id,
                builder@.data,
                builder@.mime_type,
            ),
    {
        let blob_id = Id::new();
        let html_id = match builder.html_id {
            Some(h) => h,
            None => {
                let mut h = String::from_str("__id_Id(");
                push_decimal(blob_id.data(), &mut h);
                h.append(")");
                assert(h@ =~= default_html_id(blob_id@));
                h
            },
        };
        let blob = Image::build_blob(
            html_id.as_str(),
            blob_id,
            builder.data,
            builder.mime_type,
            Id::new().data(),
        );
        Image { blob, html_id }
    }
}

impl vstd::std_specs::convert::FromSpecImpl<ImageBuilder> for Image {
    open spec fn obeys_from_spec() -> bool {
        false
    }

    closed spec fn from_spec(v: ImageBuilder) -> Image {
        arbitrary()
    }
}

} // verus!
