use typed_eventbus::local::RELIABLE_CAPACITY;
use typed_eventbus::LocalEventStream;

#[test]
fn new_bus_has_no_receivers() {
    let bus: LocalEventStream<u32> = LocalEventStream::new(16);
    assert_eq!(bus.channel_capacity(), 16);
    assert!(bus.recipients("users.created").is_empty());
}

#[test]
fn reliable_bus_capacity() {
    let bus: LocalEventStream<u32> = LocalEventStream::reliable();
    assert_eq!(bus.channel_capacity(), 8192);
    assert_eq!(RELIABLE_CAPACITY, 8192);
}

#[test]
fn recipients_in_subscription_order_exact_subject() {
    let mut bus: LocalEventStream<&str> = LocalEventStream::new(4);
    bus.subscribe("users.created".to_string(), "first");
    bus.subscribe("users.deleted".to_string(), "other");
    bus.subscribe("users.created".to_string(), "second");
    bus.subscribe("users.*".to_string(), "wildcard");
    assert_eq!(bus.recipients("users.created"), vec![&"first", &"second"]);
    assert_eq!(bus.recipients("users.deleted"), vec![&"other"]);
    assert_eq!(bus.recipients("users.*"), vec![&"wildcard"]);
    assert!(bus.recipients("users").is_empty());
    assert!(bus.recipients("users.created.x").is_empty());
}

#[test]
fn subscribe_then_publish_reaches_new_subscriber() {
    let mut bus: LocalEventStream<u32> = LocalEventStream::new(1);
    for i in 0..10 {
        bus.subscribe("s".to_string(), i);
        let r = bus.recipients("s");
        assert_eq!(r.len() as u32, i + 1);
        assert_eq!(*r[i as usize], i);
    }
    assert!(bus.recipients("t").is_empty());
}

#[test]
fn same_sender_twice_receives_twice() {
    let mut bus: LocalEventStream<u32> = LocalEventStream::new(1);
    bus.subscribe("s".to_string(), 7);
    bus.subscribe("s".to_string(), 7);
    assert_eq!(bus.recipients("s"), vec![&7, &7]);
}

#[test]
fn retain_live_drops_gone_subscribers_of_the_subject_only() {
    let mut bus: LocalEventStream<u32> = LocalEventStream::new(2);
    bus.subscribe("a".to_string(), 1);
    bus.subscribe("b".to_string(), 2);
    bus.subscribe("a".to_string(), 3);
    bus.subscribe("a".to_string(), 4);
    bus.retain_live("a", &vec![false, true, false]);
    assert_eq!(bus.recipients("a"), vec![&3]);
    assert_eq!(bus.recipients("b"), vec![&2]);
    assert_eq!(bus.channel_capacity(), 2);
    bus.subscribe("a".to_string(), 5);
    assert_eq!(bus.recipients("a"), vec![&3, &5]);
}

#[test]
fn retain_live_with_all_live_keeps_everything() {
    let mut bus: LocalEventStream<u32> = LocalEventStream::new(1);
    bus.subscribe("a".to_string(), 1);
    bus.subscribe("a".to_string(), 2);
    bus.retain_live("a", &vec![true, true]);
    assert_eq!(bus.recipients("a"), vec![&1, &2]);
}

#[test]
fn retain_live_on_unknown_subject_changes_nothing() {
    let mut bus: LocalEventStream<u32> = LocalEventStream::new(1);
    bus.subscribe("a".to_string(), 1);
    bus.retain_live("z", &vec![]);
    assert_eq!(bus.recipients("a"), vec![&1]);
    assert!(bus.recipients("z").is_empty());
}

#[test]
fn retain_live_can_empty_a_subject() {
    let mut bus: LocalEventStream<u32> = LocalEventStream::new(1);
    bus.subscribe("a".to_string(), 1);
    bus.retain_live("a", &vec![false]);
    assert!(bus.recipients("a").is_empty());
}
