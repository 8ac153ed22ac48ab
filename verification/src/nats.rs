//! Naming and delivery rules of the NATS transports.
use vstd::prelude::*;
use crate::envelop::{hyphenated, is_random_v4, Uuid};
use crate::text::{is_white_space, push_char, same_text, white_space};

verus! {

/// A character that NATS reserves in durable names: '.', '*', '>' and
/// white space.
pub open spec fn is_reserved(c: char) -> bool {
    c == '.' || c == '*' || c == '>' || is_white_space(c)
}

/// What a subject character becomes in a durable consumer name: a reserved
/// character becomes '_', every other character stays.
pub open spec fn durable_char(c: char) -> char {
    if is_reserved(c) {
        '_'
    } else {
        c
    }
}

/// The subject with every reserved character replaced by '_'.
pub open spec fn sanitized(subject: Seq<char>) -> Seq<char> {
    subject.map_values(|c: char| durable_char(c))
}

/// Rewrites `subject` so that it can stand in a durable consumer name.
pub fn sanitize_for_durable_name(subject: &str) -> (r: String)
    ensures
        r@ == sanitized(subject@),
{
    let mut out = String::new();
    for c in it: subject.chars()
        invariant
            it.seq() == subject@,
            out@ == sanitized(subject@.take(it.index() as int)),
    {
        let mapped = if c == '.' || c == '*' || c == '>' || white_space(c) {
            '_'
        } else {
            c
        };
        proof {
            assert(subject@.take(it.index() + 1) =~= subject@.take(it.index() as int).push(c));
        }
        push_char(&mut out, mapped);
        assert(out@ =~= sanitized(subject@.take(it.index() + 1)));
    }
    assert(subject@.take(subject@.len() as int) =~= subject@);
    out
}

/// The durable consumer name of `group` on `subject`: the group, two
/// underscores, then the sanitized subject.
pub open spec fn durable_name_of(group: Seq<char>, subject: Seq<char>) -> Seq<char> {
    group + seq!['_', '_'] + sanitized(subject)
}

/// Derives the durable consumer name that one group uses for one subject.
pub fn durable_name(group: &str, subject: &str) -> (r: String)
    ensures
        r@ == durable_name_of(group@, subject@),
{
    let mut out = group.to_owned();
    push_char(&mut out, '_');
    push_char(&mut out, '_');
    let tail = sanitize_for_durable_name(subject);
    out.append(tail.as_str());
    assert(out@ =~= durable_name_of(group@, subject@));
    out
}

/// What `str::to_lowercase` gives for a text: the Unicode lower-case
/// mapping of every character, as std's tables define it.
pub uninterp spec fn lowercase(s: Seq<char>) -> Seq<char>;

/// Lower-cases a text with `str::to_lowercase`.
#[verifier::external_body]
fn to_lowercase(s: &str) -> (r: String)
    ensures
        r@ == lowercase(s@),
{
    s.to_lowercase()
}

/// The subject filter that covers every subject under a prefix: the prefix,
/// then `.>`.
pub open spec fn prefix_filter(prefix: Seq<char>) -> Seq<char> {
    prefix + seq!['.', '>']
}

/// Builds the filter `{prefix}.>` from an already lower-cased stream name.
pub fn filter_under(prefix: &str) -> (r: String)
    ensures
        r@ == prefix_filter(prefix@),
{
    let mut out = prefix.to_owned();
    push_char(&mut out, '.');
    push_char(&mut out, '>');
    assert(out@ =~= prefix_filter(prefix@));
    out
}

/// The subject filter that a stream is created with: its name in lower case,
/// then `.>`.
pub fn stream_subject_filter(stream_name: &str) -> (r: String)
    ensures
        r@ == prefix_filter(lowercase(stream_name@)),
{
    let lower = to_lowercase(stream_name);
    filter_under(lower.as_str())
}

/// The settings with which the at-least-once transport creates (or finds)
/// its JetStream stream.
pub struct StreamSettings {
    pub name: String,
    pub subjects: Vec<String>,
}

impl StreamSettings {
    /// The stream named `stream_name`, holding every subject under its
    /// lower-cased name.
    pub fn for_stream(stream_name: String) -> (r: StreamSettings)
        ensures
            r.name@ == stream_name@,
            r.subjects@.len() == 1,
            r.subjects@[0]@ == prefix_filter(lowercase(stream_name@)),
    {
        let filter = stream_subject_filter(stream_name.as_str());
        let mut subjects: Vec<String> = Vec::new();
        subjects.push(filter);
        StreamSettings { name: stream_name, subjects }
    }
}

/// The most messages a durable consumer hands out before it waits for acks.
pub const MAX_ACK_PENDING: i64 = 1000;

/// Which stored messages a new consumer starts from.
#[derive(Clone, Copy, Debug, PartialEq, Eq, Structural)]
pub enum DeliverPolicy {
    /// Every message that the stream holds, from the first.
    All,
}

/// How a consumer learns that a message was handled.
#[derive(Clone, Copy, Debug, PartialEq, Eq, Structural)]
pub enum AckPolicy {
    /// Each message is acked on its own.
    Explicit,
}

/// The settings of the pull consumer that one group uses for one subject.
pub struct ConsumerSettings {
    pub durable_name: String,
    pub filter_subject: String,
    pub deliver_policy: DeliverPolicy,
    pub ack_policy: AckPolicy,
    pub max_ack_pending: i64,
}

impl ConsumerSettings {
    /// The durable pull consumer of `group` on `subject`: named by
    /// [`durable_name`], filtered on exactly `subject`, replaying the whole
    /// stream, with explicit acks and at most [`MAX_ACK_PENDING`] unacked
    /// messages.
    pub fn for_subject(group: &str, subject: &str) -> (r: ConsumerSettings)
        ensures
            r.durable_name@ == durable_name_of(group@, subject@),
            r.filter_subject@ == subject@,
            r.deliver_policy == DeliverPolicy::All,
            r.ack_policy == AckPolicy::Explicit,
            r.max_ack_pending == MAX_ACK_PENDING,
            r.max_ack_pending == 1000,
    {
        ConsumerSettings {
            durable_name: durable_name(group, subject),
            filter_subject: subject.to_owned(),
            deliver_policy: DeliverPolicy::All,
            ack_policy: AckPolicy::Explicit,
            max_ack_pending: MAX_ACK_PENDING,
        }
    }
}

/// The message with which a subscription is refused when the durable
/// consumer found under its name filters on another subject.
pub open spec fn collision_message(
    durable: Seq<char>,
    actual_filter: Seq<char>,
    subject: Seq<char>,
) -> Seq<char> {
    "durable consumer '"@ + durable + "' already exists with filter_subject '"@ + actual_filter
        + "', expected '"@ + subject + "' \u{2014} likely a durable-name collision"@
}

/// Accepts the consumer found under `durable` only when it filters on
/// exactly `subject`; otherwise the subscription fails with
/// [`collision_message`].
pub fn check_consumer_filter(durable: &str, actual_filter: &str, subject: &str) -> (r: Result<
    (),
    String,
>)
    ensures
        r is Ok <==> actual_filter@ == subject@,
        r matches Err(msg) ==> msg@ == collision_message(durable@, actual_filter@, subject@),
{
    if same_text(actual_filter, subject) {
        Ok(())
    } else {
        let mut msg = "durable consumer '".to_owned();
        msg.append(durable);
        msg.append("' already exists with filter_subject '");
        msg.append(actual_filter);
        msg.append("', expected '");
        msg.append(subject);
        msg.append("' \u{2014} likely a durable-name collision");
        Err(msg)
    }
}

/// What becomes of a JetStream message once its handler has run.
#[derive(Clone, Copy, Debug, PartialEq, Eq, Structural)]
pub enum Settlement {
    /// The handler succeeded: the message is acked and not seen again.
    Ack,
    /// The handler failed: the message stays unacked and JetStream
    /// delivers it again.
    Redeliver,
}

/// At-least-once delivery: a message is acked exactly when its handler
/// succeeded.
pub fn settle(handler_succeeded: bool) -> (r: Settlement)
    ensures
        r == (if handler_succeeded { Settlement::Ack } else { Settlement::Redeliver }),
{
    if handler_succeeded {
        Settlement::Ack
    } else {
        Settlement::Redeliver
    }
}

// ---------------------------------------------------------- transports

/// `async_nats::Client`, a connection to a NATS server; carried unread.
#[verifier::external_type_specification]
#[verifier::external_body]
pub struct ExClient(async_nats::Client);

/// `async_nats::jetstream::Context`, the JetStream API of a connection;
/// carried unread.
#[verifier::external_type_specification]
#[verifier::external_body]
pub struct ExContext(async_nats::jetstream::Context);

/// The name of a group that nobody else chose: the hyphenated text of a
/// fresh random UUID.
pub open spec fn is_private_group(group: Seq<char>) -> bool {
    exists|bits: u128| is_random_v4(bits) && group == hyphenated(bits)
}

/// A fresh group name of its own for a transport.
fn private_group() -> (r: String)
    ensures
        is_private_group(r@),
{
    let id = Uuid::new_v4();
    id.to_string()
}

/// Fire-and-forget transport over core NATS. Subscriptions join a queue
/// group, so subscribers that share the group share the messages.
pub struct NatsEventStream {
    client: async_nats::Client,
    group: String,
}

impl NatsEventStream {
    /// The queue group that this transport's subscriptions join.
    pub closed spec fn group_text(&self) -> Seq<char> {
        self.group@
    }

    /// The connection that this transport uses.
    pub closed spec fn connection(&self) -> async_nats::Client {
        self.client
    }

    /// A transport on `client` whose subscriptions join a queue group of
    /// their own, so that each process gets every message.
    pub fn from_client(client: async_nats::Client) -> (r: NatsEventStream)
        ensures
            r.connection() == client,
            is_private_group(r.group_text()),
    {
        NatsEventStream { client, group: private_group() }
    }

    /// The same transport with `group` as its queue group: processes that
    /// share a group name share the work.
    pub fn with_group(self, group: String) -> (r: NatsEventStream)
        ensures
            r.connection() == self.connection(),
            r.group_text() == group@,
    {
        NatsEventStream { group, ..self }
    }

    /// The connection that this transport uses.
    pub fn client(&self) -> (r: &async_nats::Client)
        ensures
            *r == self.connection(),
    {
        &self.client
    }

    /// The queue group that this transport's subscriptions join.
    pub fn group(&self) -> (r: &str)
        ensures
            r@ == self.group_text(),
    {
        self.group.as_str()
    }
}

/// At-least-once transport over JetStream: messages are stored in one
/// stream, and each group reads a subject through a durable consumer of its
/// own that redelivers what was not acked.
pub struct NatsAloStream {
    js: async_nats::jetstream::Context,
    group: String,
    stream_name: String,
}

impl NatsAloStream {
    /// The group whose durable consumers this transport reads through.
    pub closed spec fn group_text(&self) -> Seq<char> {
        self.group@
    }

    /// The name of the stream that holds the messages.
    pub closed spec fn stream_text(&self) -> Seq<char> {
        self.stream_name@
    }

    /// The JetStream context that this transport uses.
    pub closed spec fn jetstream(&self) -> async_nats::jetstream::Context {
        self.js
    }

    /// A transport through the JetStream context `js` on the stream
    /// `stream_name`, in a group of its own. The stream itself is described
    /// by [`NatsAloStream::stream_settings`].
    pub fn from_context(js: async_nats::jetstream::Context, stream_name: String) -> (r:
        NatsAloStream)
        ensures
            r.jetstream() == js,
            r.stream_text() == stream_name@,
            is_private_group(r.group_text()),
    {
        NatsAloStream { js, group: private_group(), stream_name }
    }

    /// The same transport in the group `group`: processes that share a
    /// group share each subject's durable consumer, and so its messages.
    pub fn with_group(self, group: String) -> (r: NatsAloStream)
        ensures
            r.jetstream() == self.jetstream(),
            r.stream_text() == self.stream_text(),
            r.group_text() == group@,
    {
        NatsAloStream { group, ..self }
    }

    /// The JetStream context that this transport uses.
    pub fn context(&self) -> (r: &async_nats::jetstream::Context)
        ensures
            *r == self.jetstream(),
    {
        &self.js
    }

    /// The name of the stream that holds the messages.
    pub fn stream_name(&self) -> (r: &str)
        ensures
            r@ == self.stream_text(),
    {
        self.stream_name.as_str()
    }

    /// The group whose durable consumers this transport reads through.
    pub fn group(&self) -> (r: &str)
        ensures
            r@ == self.group_text(),
    {
        self.group.as_str()
    }

    /// The stream that this transport publishes into: named after it, and
    /// holding every subject under its lower-cased name.
    pub fn stream_settings(&self) -> (r: StreamSettings)
        ensures
            r.name@ == self.stream_text(),
            r.subjects@.len() == 1,
            r.subjects@[0]@ == prefix_filter(lowercase(self.stream_text())),
    {
        StreamSettings::for_stream(self.stream_name.clone())
    }

    /// The durable consumer through which this transport's group reads
    /// `subject`.
    pub fn consumer_settings(&self, subject: &str) -> (r: ConsumerSettings)
        ensures
            r.durable_name@ == durable_name_of(self.group_text(), subject@),
            r.filter_subject@ == subject@,
            r.deliver_policy == DeliverPolicy::All,
            r.ack_policy == AckPolicy::Explicit,
            r.max_ack_pending == MAX_ACK_PENDING,
    {
        ConsumerSettings::for_subject(self.group.as_str(), subject)
    }
}

// ---------------------------------------------------------------- laws

/// A sanitized subject is as long as the subject, holds no reserved
/// character, and keeps every other character where it was.
pub proof fn law_sanitized_is_clean(subject: Seq<char>)
    ensures
        sanitized(subject).len() == subject.len(),
        forall|i: int| 0 <= i < subject.len() ==> !is_reserved(#[trigger] sanitized(subject)[i]),
        forall|i: int|
            0 <= i < subject.len() && !is_reserved(subject[i]) ==> #[trigger] sanitized(
                subject,
            )[i] == subject[i],
{
}

/// Within one group, two subjects get the same durable consumer exactly
/// when they read the same once sanitized: distinct subjects stay apart
/// unless they differ only in reserved characters, and such a collision
/// is what [`check_consumer_filter`] refuses.
pub proof fn law_durable_names_separate_subjects(
    group: Seq<char>,
    first: Seq<char>,
    second: Seq<char>,
)
    ensures
        (durable_name_of(group, first) == durable_name_of(group, second)) <==> (sanitized(first)
            == sanitized(second)),
{
    let head = group + seq!['_', '_'];
    assert(durable_name_of(group, first) == head + sanitized(first));
    assert(durable_name_of(group, second) == head + sanitized(second));
    if durable_name_of(group, first) == durable_name_of(group, second) {
        assert(sanitized(first) =~= (head + sanitized(first)).skip(head.len() as int));
        assert(sanitized(second) =~= (head + sanitized(second)).skip(head.len() as int));
    }
}

/// On one subject, two groups get the same durable consumer exactly when
/// they are the same group: a group shares its messages with no other.
pub proof fn law_durable_names_separate_groups(
    first: Seq<char>,
    second: Seq<char>,
    subject: Seq<char>,
)
    ensures
        (durable_name_of(first, subject) == durable_name_of(second, subject)) <==> (first
            == second),
{
    let tail = seq!['_', '_'] + sanitized(subject);
    assert(durable_name_of(first, subject) =~= first + tail);
    assert(durable_name_of(second, subject) =~= second + tail);
    if durable_name_of(first, subject) == durable_name_of(second, subject) {
        assert(first =~= (first + tail).take(first.len() as int));
        assert(second =~= (second + tail).take(second.len() as int));
    }
}

/// Two JetStream transports in the same group read a subject through one
/// durable consumer (so they share its messages), and read two subjects
/// through different consumers exactly when the subjects differ once
/// sanitized. Which messages each consumer then hands out is the server's.
pub proof fn law_group_consumers(
    a: NatsAloStream,
    b: NatsAloStream,
    first: Seq<char>,
    second: Seq<char>,
)
    requires
        a.group_text() == b.group_text(),
    ensures
        durable_name_of(a.group_text(), first) == durable_name_of(b.group_text(), first),
        (durable_name_of(a.group_text(), first) == durable_name_of(b.group_text(), second)) <==> (
        sanitized(first) == sanitized(second)),
{
    law_durable_names_separate_subjects(a.group_text(), first, second);
}

/// Sanitizing changes exactly the characters that durable names cannot
/// hold, each into '_': '.', '*', '>', and the characters that
/// `char::is_whitespace` accepts (U+0009..=U+000D, U+0020, U+0085, U+00A0,
/// U+1680, U+2000..=U+200A, U+2028, U+2029, U+202F, U+205F, U+3000). Every
/// other character, letters and digits of any case among them, stays where
/// it was.
pub proof fn law_sanitize_changes_only_reserved(subject: Seq<char>)
    ensures
        sanitized(subject).len() == subject.len(),
        forall|i: int|
            0 <= i < subject.len() ==> {
                let c = subject[i];
                let n = c as u32;
                let reserved = c == '.' || c == '*' || c == '>' || (9 <= n && n <= 13) || n == 32
                    || n == 0x85 || n == 0xa0 || n == 0x1680 || (0x2000 <= n && n <= 0x200a) || n
                    == 0x2028 || n == 0x2029 || n == 0x202f || n == 0x205f || n == 0x3000;
                #[trigger] sanitized(subject)[i] == (if reserved {
                    '_'
                } else {
                    c
                })
            },
{
}

/// A durable name is the group, unchanged, two underscores, then the
/// sanitized subject: as long as both together plus two, with the group
/// in front and the subject's characters (sanitized) at the end.
pub proof fn law_durable_name_layout(group: Seq<char>, subject: Seq<char>)
    ensures
        durable_name_of(group, subject).len() == group.len() + 2 + subject.len(),
        durable_name_of(group, subject).take(group.len() as int) == group,
        durable_name_of(group, subject)[group.len() as int] == '_',
        durable_name_of(group, subject)[group.len() + 1int] == '_',
        durable_name_of(group, subject).skip(group.len() + 2int) == sanitized(subject),
{
    let d = durable_name_of(group, subject);
    assert(d.take(group.len() as int) =~= group);
    assert(d.skip(group.len() + 2int) =~= sanitized(subject));
}

/// The filter of a stream is its lower-cased name, unchanged, followed by
/// the two characters `.>`.
pub proof fn law_stream_filter_layout(prefix: Seq<char>)
    ensures
        prefix_filter(prefix).len() == prefix.len() + 2,
        prefix_filter(prefix).take(prefix.len() as int) == prefix,
        prefix_filter(prefix)[prefix.len() as int] == '.',
        prefix_filter(prefix)[prefix.len() + 1int] == '>',
{
    assert(prefix_filter(prefix).take(prefix.len() as int) =~= prefix);
}

/// The collision message names the durable consumer, the subject it
/// filters on and the subject asked for, in that order, each unchanged
/// and quoted, between fixed words.
pub proof fn law_collision_message_names_all_three(
    durable: Seq<char>,
    actual_filter: Seq<char>,
    subject: Seq<char>,
)
    ensures
        ({
            let m = collision_message(durable, actual_filter, subject);
            let a: int = 18int + durable.len();
            let b: int = a + 38 + actual_filter.len();
            let c: int = b + 13 + subject.len();
            &&& m.subrange(18, a) == durable
            &&& m.subrange(a + 38, b) == actual_filter
            &&& m.subrange(b + 13, c) == subject
            &&& m.len() == c + 35
            &&& m.take(18) == seq![
                'd', 'u', 'r', 'a', 'b', 'l', 'e', ' ', 'c', 'o', 'n', 's', 'u', 'm', 'e', 'r', ' ', '\'',
            ]
        }),
{
    reveal_strlit("durable consumer '");
    reveal_strlit("' already exists with filter_subject '");
    reveal_strlit("', expected '");
    reveal_strlit("' \u{2014} likely a durable-name collision");
    let m = collision_message(durable, actual_filter, subject);
    let a: int = 18int + durable.len();
    let b: int = a + 38 + actual_filter.len();
    let c: int = b + 13 + subject.len();
    assert(m.subrange(18, a) =~= durable);
    assert(m.subrange(a + 38, b) =~= actual_filter);
    assert(m.subrange(b + 13, c) =~= subject);
    assert(m.take(18) =~= seq![
        'd', 'u', 'r', 'a', 'b', 'l', 'e', ' ', 'c', 'o', 'n', 's', 'u', 'm', 'e', 'r', ' ', '\'',
    ]);
}

} // verus!
