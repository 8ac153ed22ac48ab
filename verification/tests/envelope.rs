use typed_eventbus::envelop::{EventMetaData, Identifier};
use typed_eventbus::{Event, EventType, Uuid};

struct UserCreated {
    user_id: String,
}

impl EventType for UserCreated {
    const SUBJECT: &'static str = "users.created";
}

const SAMPLE: &str = "67e55044-10b1-426f-9247-bb680e5fe0c8";

fn sample() -> Uuid {
    Uuid::from_u128(uuid::Uuid::parse_str(SAMPLE).unwrap().as_u128())
}

#[test]
fn uuid_text_matches_uuid_crate() {
    for bits in [0u128, 1, u128::MAX, 0x0123_4567_89ab_cdef_fedc_ba98_7654_3210, sample().as_u128()] {
        let ours = Uuid::from_u128(bits).to_string();
        assert_eq!(ours, uuid::Uuid::from_u128(bits).to_string());
    }
    assert_eq!(Uuid::from_u128(0).to_string(), "00000000-0000-0000-0000-000000000000");
    assert_eq!(sample().to_string(), SAMPLE);
}

#[test]
fn uuid_round_trips_through_u128() {
    assert_eq!(Uuid::from_u128(42).as_u128(), 42);
}

#[test]
fn new_v4_sets_version_and_variant() {
    for _ in 0..64 {
        let u = Uuid::new_v4();
        let theirs = uuid::Uuid::from_u128(u.as_u128());
        assert_eq!(theirs.get_version_num(), 4);
        assert_eq!(theirs.get_variant(), uuid::Variant::RFC4122);
    }
    assert_ne!(Uuid::new_v4(), Uuid::new_v4());
}

#[test]
fn identifier_parses_uuid_text() {
    match Identifier::parse(SAMPLE) {
        Identifier::Uuid(u) => assert_eq!(u, sample()),
        other => panic!("expected a uuid, got {:?}", other),
    }
}

#[test]
fn identifier_parses_other_uuid_forms() {
    let simple = "67e5504410b1426f9247bb680e5fe0c8";
    let upper = "67E55044-10B1-426F-9247-BB680E5FE0C8";
    let braced = "{67e55044-10b1-426f-9247-bb680e5fe0c8}";
    for text in [simple, upper, braced] {
        match Identifier::parse(text) {
            Identifier::Uuid(u) => assert_eq!(u, sample()),
            other => panic!("expected a uuid for {text}, got {:?}", other),
        }
    }
}

#[test]
fn identifier_falls_back_to_tag() {
    for text in ["admin", "", "67e55044-10b1-426f-9247", "audit-log"] {
        match Identifier::parse(text) {
            Identifier::Tag(t) => assert_eq!(t, text),
            other => panic!("expected a tag for {text}, got {:?}", other),
        }
    }
}

#[test]
fn identifier_from_parsed_uses_given_result() {
    match Identifier::from_parsed("anything", Some(sample())) {
        Identifier::Uuid(u) => assert_eq!(u, sample()),
        other => panic!("{:?}", other),
    }
    match Identifier::from_parsed("anything", None) {
        Identifier::Tag(t) => assert_eq!(t, "anything"),
        other => panic!("{:?}", other),
    }
}

#[test]
fn identifier_conversions() {
    assert!(matches!(Identifier::from(sample()), Identifier::Uuid(u) if u == sample()));
    assert!(matches!(Identifier::from(SAMPLE), Identifier::Uuid(u) if u == sample()));
    assert!(matches!(Identifier::from("admin"), Identifier::Tag(t) if t == "admin"));
    let parsed: Identifier = "audit".parse().unwrap();
    assert!(matches!(parsed, Identifier::Tag(t) if t == "audit"));
    let parsed: Identifier = SAMPLE.parse().unwrap();
    assert!(matches!(parsed, Identifier::Uuid(u) if u == sample()));
}

#[test]
fn uuid_text_reads_back_as_that_uuid() {
    let u = Uuid::new_v4();
    assert!(matches!(Identifier::parse(&u.to_string()), Identifier::Uuid(v) if v == u));
}

#[test]
fn fresh_metadata() {
    let m = EventMetaData::new();
    assert_eq!(m.event_version, "v1");
    assert_eq!(uuid::Uuid::from_u128(m.event_id.as_u128()).get_version_num(), 4);
    assert!(m.producer.is_none());
    assert!(m.correlation_id.is_none());
    assert!(m.trace_id.is_none());
    assert!(m.user_id.is_none());
    assert!(m.session_id.is_none());
    assert!(m.audience.is_empty());
    assert!(EventMetaData::new().event_id != m.event_id);
}

#[test]
fn metadata_builders_set_one_field_each() {
    let m = EventMetaData::new();
    let id = m.event_id;
    let at = m.occurred_at;
    let a = Uuid::from_u128(1);
    let b = Uuid::from_u128(2);
    let c = Uuid::from_u128(3);
    let d = Uuid::from_u128(4);
    let m = m
        .with_producer("checkout-service")
        .with_correlation_id(a)
        .with_trace_id(b)
        .with_user_id(c)
        .with_session_id(d)
        .with_audience(vec![Identifier::Tag("admin".to_string())]);
    assert_eq!(m.event_id, id);
    assert_eq!(m.occurred_at, at);
    assert_eq!(m.event_version, "v1");
    assert_eq!(m.producer.as_deref(), Some("checkout-service"));
    assert_eq!(m.correlation_id, Some(a));
    assert_eq!(m.trace_id, Some(b));
    assert_eq!(m.user_id, Some(c));
    assert_eq!(m.session_id, Some(d));
    assert_eq!(m.audience.len(), 1);
    assert!(matches!(&m.audience[0], Identifier::Tag(t) if t == "admin"));
}

#[test]
fn event_new_and_builders() {
    let e = Event::new(UserCreated { user_id: "u_123".to_string() });
    assert_eq!(e.metadata.event_version, "v1");
    assert!(e.metadata.audience.is_empty());
    let a = Uuid::from_u128(7);
    let e = e
        .with_producer("user-service")
        .with_correlation_id(a)
        .with_trace_id(a)
        .with_user_id(a)
        .with_session_id(a);
    assert_eq!(e.payload.user_id, "u_123");
    assert_eq!(e.metadata.producer.as_deref(), Some("user-service"));
    assert_eq!(e.metadata.correlation_id, Some(a));
    assert_eq!(e.metadata.trace_id, Some(a));
    assert_eq!(e.metadata.user_id, Some(a));
    assert_eq!(e.metadata.session_id, Some(a));
    assert_eq!(<UserCreated as EventType>::SUBJECT, "users.created");
}

#[test]
fn event_audience_from_text_and_uuids() {
    let e = Event::new(UserCreated { user_id: "u".to_string() })
        .with_audience(vec!["admin", SAMPLE, "audit-log"])
        .add_audience(Uuid::from_u128(9))
        .add_audience("ops");
    let aud = &e.metadata.audience;
    assert_eq!(aud.len(), 5);
    assert!(matches!(&aud[0], Identifier::Tag(t) if t == "admin"));
    assert!(matches!(&aud[1], Identifier::Uuid(u) if *u == sample()));
    assert!(matches!(&aud[2], Identifier::Tag(t) if t == "audit-log"));
    assert!(matches!(&aud[3], Identifier::Uuid(u) if u.as_u128() == 9));
    assert!(matches!(&aud[4], Identifier::Tag(t) if t == "ops"));
}

#[test]
fn event_with_audience_replaces_audience() {
    let e = Event::new(UserCreated { user_id: "u".to_string() })
        .add_audience("first")
        .with_audience(vec![Uuid::from_u128(5)]);
    assert_eq!(e.metadata.audience.len(), 1);
    assert!(matches!(&e.metadata.audience[0], Identifier::Uuid(u) if u.as_u128() == 5));
    let e = e.with_audience(Vec::<&str>::new());
    assert!(e.metadata.audience.is_empty());
}

#[test]
fn texts_of_other_lengths_are_tags() {
    for text in ["67e55044-10b1-426f-9247-bb680e5fe0c8x", "67e5504410b1426f9247bb680e5fe0c", "ÿ7e55044-10b1-426f-9247-bb680e5fe0c"] {
        assert!(matches!(Identifier::parse(text), Identifier::Tag(t) if t == text));
    }
    let urn = "urn:uuid:67e55044-10b1-426f-9247-bb680e5fe0c8";
    assert!(matches!(Identifier::parse(urn), Identifier::Uuid(u) if u == sample()));
}
