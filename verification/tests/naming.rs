use typed_eventbus::nats::{
    check_consumer_filter, durable_name, filter_under, sanitize_for_durable_name, settle,
    stream_subject_filter, AckPolicy, ConsumerSettings, DeliverPolicy, Settlement,
    StreamSettings, MAX_ACK_PENDING,
};
use typed_eventbus::text::{same_text, white_space};

#[test]
fn sanitize_replaces_dots_and_wildcards() {
    assert_eq!(sanitize_for_durable_name("orders.payment.completed"), "orders_payment_completed");
    assert_eq!(sanitize_for_durable_name("events.*.>"), "events____");
}

#[test]
fn sanitize_replaces_white_space_of_every_kind() {
    assert_eq!(sanitize_for_durable_name("a b\tc\nd"), "a_b_c_d");
    assert_eq!(sanitize_for_durable_name("x\u{3000}y\u{2028}z\u{a0}w"), "x_y_z_w");
}

#[test]
fn sanitize_keeps_other_characters() {
    assert_eq!(sanitize_for_durable_name("Ünïcødé-subject_1"), "Ünïcødé-subject_1");
    assert_eq!(sanitize_for_durable_name(""), "");
}

#[test]
fn white_space_agrees_with_std_on_every_char() {
    for n in 0u32..=0x10FFFF {
        if let Some(c) = char::from_u32(n) {
            assert_eq!(white_space(c), c.is_whitespace(), "U+{:04X}", n);
        }
    }
}

#[test]
fn same_text_compares_contents() {
    assert!(same_text("abc", "abc"));
    assert!(!same_text("abc", "abd"));
    assert!(!same_text("abc", "ab"));
}

#[test]
fn durable_name_joins_group_and_sanitized_subject() {
    assert_eq!(durable_name("order-workers", "events.users.created"), "order-workers__events_users_created");
    assert_eq!(durable_name("", "a"), "__a");
}

#[test]
fn durable_names_of_distinct_subjects_differ() {
    assert_ne!(durable_name("g", "events.a"), durable_name("g", "events.b"));
}

#[test]
fn durable_names_collide_after_sanitization() {
    assert_eq!(durable_name("g", "a.b"), durable_name("g", "a_b"));
}

#[test]
fn check_consumer_filter_accepts_matching_filter() {
    assert_eq!(check_consumer_filter("g__a_b", "a.b", "a.b"), Ok(()));
}

#[test]
fn check_consumer_filter_refuses_collision() {
    let err = check_consumer_filter("g__a_b", "a.b", "a_b").unwrap_err();
    assert_eq!(
        err,
        "durable consumer 'g__a_b' already exists with filter_subject 'a.b', expected 'a_b' \u{2014} likely a durable-name collision"
    );
}

#[test]
fn stream_filter_is_lowercase_name_then_wildcard() {
    assert_eq!(stream_subject_filter("EVENTS"), "events.>");
    assert_eq!(stream_subject_filter("Orders"), "orders.>");
    assert_eq!(stream_subject_filter("ÉVÉNEMENTS"), "événements.>");
}

#[test]
fn filter_under_appends_wildcard() {
    assert_eq!(filter_under("events"), "events.>");
    assert_eq!(filter_under(""), ".>");
}

#[test]
fn stream_settings_hold_one_filter() {
    let s = StreamSettings::for_stream("ORDERS".to_string());
    assert_eq!(s.name, "ORDERS");
    assert_eq!(s.subjects, vec!["orders.>".to_string()]);
}

#[test]
fn consumer_settings_for_group_and_subject() {
    let c = ConsumerSettings::for_subject("workers", "events.users.created");
    assert_eq!(c.durable_name, "workers__events_users_created");
    assert_eq!(c.filter_subject, "events.users.created");
    assert_eq!(c.deliver_policy, DeliverPolicy::All);
    assert_eq!(c.ack_policy, AckPolicy::Explicit);
    assert_eq!(c.max_ack_pending, 1000);
    assert_eq!(MAX_ACK_PENDING, 1000);
}

#[test]
fn handler_success_acks_failure_redelivers() {
    assert_eq!(settle(true), Settlement::Ack);
    assert_eq!(settle(false), Settlement::Redeliver);
}

#[test]
fn durable_names_of_distinct_groups_differ() {
    assert_ne!(durable_name("a", "events.x"), durable_name("b", "events.x"));
    assert_ne!(durable_name("a_", "events.x"), durable_name("a", "events.x"));
}
