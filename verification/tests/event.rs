use greenhorn::event::Event;

#[derive(Debug)]
enum Msg {
    Event(i32),
}

#[test]
fn event_subscription() {
    let event = Event::<i32>::new();
    let subs = event.subscribe(Msg::Event);
    let emission = event.emit(3);
    let msg = subs.call(emission.data);
    assert!(matches!(msg, Msg::Event(3)));
}

#[test]
fn emission_carries_event_id() {
    let event = Event::<String>::new();
    let other = Event::<String>::new();
    let subs = event.subscribe(|s: String| s.len());
    let emission = event.emit("four".to_string());
    assert_eq!(emission.event_id, subs.id());
    assert_ne!(other.emit(String::new()).event_id, subs.id());
    assert!(!subs.id().is_empty());
    assert_eq!(subs.call(emission.data), 4);
    let cloned = event.clone();
    assert_eq!(cloned.emit(1u8).event_id, subs.id());
}
