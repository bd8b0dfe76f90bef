use greenhorn::blob::Blob;
use greenhorn::components::image::Image;
use greenhorn::components::text_input::TextInput;
use greenhorn::node_builder::NodeBuilder;
use greenhorn::services::element_size::ElementSizeNotifier;
use greenhorn::text::decimal_string;
use greenhorn::Id;

#[test]
fn ids() {
    let a = Id::new();
    let b = Id::new();
    assert!(!a.is_empty());
    assert!(!b.is_empty());
    assert_ne!(a, b);
    assert!(Id::new_empty().is_empty());
    assert_eq!(Id::new_from_data(5).data(), 5);
    assert_eq!(Id::from(6u64).data(), 6);
    assert!(!Id::default().is_empty());
}

#[test]
fn decimals() {
    assert_eq!(decimal_string(0), "0");
    assert_eq!(decimal_string(7), "7");
    assert_eq!(decimal_string(1234567890), "1234567890");
    assert_eq!(decimal_string(u64::MAX), u64::MAX.to_string());
}

#[test]
fn blob_builder() {
    let b = NodeBuilder::<()>::new()
        .blob(99)
        .id(Id::new_from_data(3))
        .data(vec![1, 2, 3])
        .mime_type("text/plain")
        .on_change("changed()")
        .on_add("added()")
        .build();
    assert_eq!(b.id().data(), 3);
    assert_eq!(b.hash(), 99);
    assert_eq!(b.data(), &vec![1, 2, 3]);
    assert_eq!(b.mime_type(), "text/plain");
    assert_eq!(b.on_change(), Some("changed()"));
    assert_eq!(b.on_add(), Some("added()"));
    let c = b.clone();
    assert!(c == b);
    let svg_blob = NodeBuilder::<()>::new_with_ns("http://www.w3.org/2000/svg").blob(5).build();
    assert_eq!(svg_blob.hash(), 5);
    let fresh = Blob::build(1).build();
    assert!(!fresh.id().is_empty());
    assert_eq!(fresh.on_change(), None);
}

#[test]
fn images() {
    let img: Image = Image::build().id("pic").data(vec![9]).mime_type("image/png").into();
    let _ = img;
    let unnamed: Image = Image::build().into();
    let _ = unnamed;
}

#[test]
fn text_input() {
    let mut t = TextInput::new();
    assert_eq!(t.get(), "");
    t.set("hello");
    assert_eq!(t.get(), "hello");
    assert_eq!(TextInput::default().get(), "");
}

#[test]
fn element_size_script() {
    let script = ElementSizeNotifier::new("my-elem").script().unwrap();
    assert!(script.contains("document.getElementById(\"my-elem\")"));
    assert!(!script.contains("{{element_id}}"));
}

#[test]
fn blob_builders_with_equal_parts_build_equal_blobs() {
    let a = NodeBuilder::<()>::new().blob(7).id(Id::new_from_data(3)).mime_type("text/plain").data(vec![1, 2]).on_add("x()").build();
    let b = Blob::build(7).id(Id::new_from_data(3)).mime_type("text/plain").data(vec![1, 2]).on_add("x()").build();
    assert_eq!(a.id().data(), b.id().data());
    assert_eq!(a.hash(), b.hash());
    assert_eq!(a.data(), b.data());
    assert_eq!(a.mime_type(), b.mime_type());
    assert_eq!(a.on_change(), b.on_change());
    assert_eq!(a.on_add(), b.on_add());
}
