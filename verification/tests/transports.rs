use typed_eventbus::nats::{AckPolicy, DeliverPolicy};
use typed_eventbus::{NatsAloStream, NatsEventStream};

fn offline_client() -> (tokio::runtime::Runtime, async_nats::Client) {
    let rt = tokio::runtime::Runtime::new().unwrap();
    let client = rt.block_on(async {
        async_nats::ConnectOptions::new()
            .retry_on_initial_connect()
            .connect("nats://127.0.0.1:1")
            .await
            .unwrap()
    });
    (rt, client)
}

fn is_v4_text(text: &str) -> bool {
    match uuid::Uuid::parse_str(text) {
        Ok(u) => u.get_version_num() == 4 && u.hyphenated().to_string() == text,
        Err(_) => false,
    }
}

#[test]
fn core_stream_gets_private_group() {
    let (_rt, client) = offline_client();
    let a = NatsEventStream::from_client(client.clone());
    let b = NatsEventStream::from_client(client);
    assert!(is_v4_text(a.group()));
    assert_ne!(a.group(), b.group());
}

#[test]
fn core_stream_with_group() {
    let (_rt, client) = offline_client();
    let s = NatsEventStream::from_client(client).with_group("my-service".to_string());
    assert_eq!(s.group(), "my-service");
}

#[test]
fn alo_stream_settings_and_consumers() {
    let (_rt, client) = offline_client();
    let js = {
        let _inside = _rt.enter();
        async_nats::jetstream::new(client)
    };
    let s = NatsAloStream::from_context(js, "EVENTS".to_string());
    assert!(is_v4_text(s.group()));
    assert_eq!(s.stream_name(), "EVENTS");
    let settings = s.stream_settings();
    assert_eq!(settings.name, "EVENTS");
    assert_eq!(settings.subjects, vec!["events.>".to_string()]);
    let s = s.with_group("order-workers".to_string());
    assert_eq!(s.group(), "order-workers");
    assert_eq!(s.stream_name(), "EVENTS");
    let c = s.consumer_settings("events.orders.placed");
    assert_eq!(c.durable_name, "order-workers__events_orders_placed");
    assert_eq!(c.filter_subject, "events.orders.placed");
    assert_eq!(c.deliver_policy, DeliverPolicy::All);
    assert_eq!(c.ack_policy, AckPolicy::Explicit);
    assert_eq!(c.max_ack_pending, 1000);
}
