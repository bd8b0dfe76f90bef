use greenhorn::component::Updated;
use greenhorn::Id;

#[test]
fn yes_and_no() {
    assert!(Updated::no().empty());
    assert!(Updated::new().empty());
    assert!(Updated::default().empty());
    assert!(!Updated::yes().empty());
    assert!(!Updated::from(true).empty());
    assert!(Updated::from(false).empty());
    assert!(!Updated::from(Id::new_from_data(1)).empty());
}

#[test]
fn merge_with_no_changes_nothing() {
    let mut a = Updated::no();
    a.merge(Updated::no());
    assert!(a.empty());
    let mut b = Updated::from(Id::new_from_data(3));
    b.merge(Updated::no());
    assert!(!b.empty());
}

#[test]
fn merge_keeps_should_render() {
    let mut a = Updated::no();
    a.merge(Updated::yes());
    assert!(!a.empty());
    let c = Updated::combine(Updated::yes(), Updated::no());
    assert!(!c.empty());
    let d = Updated::combine(Updated::from(Id::new_from_data(1)), Updated::from(Id::new_from_data(2)));
    assert!(!d.empty());
}
