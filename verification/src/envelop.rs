//! The event envelope: identifiers, metadata and the typed event.
use vstd::prelude::*;
use crate::EventType;

verus! {

// ---------------------------------------------------------------- Uuid

/// A 128-bit universally unique identifier, held as its big-endian number.
#[derive(Clone, Copy, Debug, PartialEq, Eq, Hash, Structural)]
pub struct Uuid {
    bits: u128,
}

impl View for Uuid {
    type V = u128;

    closed spec fn view(&self) -> u128 {
        self.bits
    }
}

/// A version-4 (random) UUID: version nibble 4 and the RFC 4122 variant
/// (the two bits `10` at bits 63..62).
pub open spec fn is_random_v4(bits: u128) -> bool {
    &&& (bits >> 76u128) & 0xfu128 == 4u128
    &&& (bits >> 62u128) & 0x3u128 == 2u128
}

/// The `k`-th hexadecimal digit of a UUID, counted from the most
/// significant one (`0 <= k < 32`).
pub open spec fn nibble(bits: u128, k: int) -> u128 {
    (bits >> ((124 - 4 * k) as u128)) & 0xfu128
}

/// The lower-case hexadecimal digit for a value below 16.
pub open spec fn hex_char(n: u128) -> char {
    if n < 10 {
        (48 + n) as char
    } else {
        (87 + n) as char
    }
}

/// Whether a hyphen precedes digit `k` in the hyphenated form (8-4-4-4-12).
pub open spec fn hyphen_before(k: int) -> bool {
    k == 8 || k == 12 || k == 16 || k == 20
}

/// The text that digit `k` contributes: a hyphen where the groups meet,
/// then the digit.
pub open spec fn digit_text(bits: u128, k: int) -> Seq<char> {
    if hyphen_before(k) {
        seq!['-', hex_char(nibble(bits, k))]
    } else {
        seq![hex_char(nibble(bits, k))]
    }
}

/// The hyphenated text of the first `k` digits.
pub open spec fn hyphenated_prefix(bits: u128, k: nat) -> Seq<char>
    decreases k,
{
    if k == 0 {
        seq![]
    } else {
        hyphenated_prefix(bits, (k - 1) as nat) + digit_text(bits, k - 1)
    }
}

/// The hyphenated lower-case text of a UUID, as `uuid::Uuid` displays it:
/// 32 hexadecimal digits, most significant first, in groups of 8-4-4-4-12.
pub open spec fn hyphenated(bits: u128) -> Seq<char> {
    hyphenated_prefix(bits, 32)
}

/// What `uuid::Uuid::parse_str` gives for a text: the UUID's number, or
/// `None` where the text is no UUID.
pub uninterp spec fn uuid_parse(text: Seq<char>) -> Option<u128>;

/// `uuid::Uuid::new_v4`: a random UUID whose version and variant bits are
/// set to version 4 and the RFC 4122 variant. Which random bits come out
/// is left unsaid; the uuid crate panics where the system offers no random
/// bytes.
#[verifier::external_body]
fn random_v4() -> (r: Uuid)
    ensures
        is_random_v4(r@),
{
    Uuid { bits: uuid::Uuid::new_v4().as_u128() }
}

/// `uuid::Uuid::parse_str`: the UUID that a text spells, if any. A text in
/// the hyphenated lower-case form is always accepted, as the UUID it
/// spells. Only texts of 32, 36, 38 or 45 characters can be accepted: the
/// parser takes exactly those byte lengths, and any non-ASCII character
/// makes it fail, so an accepted text has as many characters as bytes.
#[verifier::external_body]
fn parse_uuid(text: &str) -> (r: Option<Uuid>)
    ensures
        match r {
            Some(u) => uuid_parse(text@) == Some(u@),
            None => uuid_parse(text@) is None,
        },
        forall|b: u128| text@ == #[trigger] hyphenated(b) ==> r == Some(Uuid { bits: b }),
        !(text@.len() == 32 || text@.len() == 36 || text@.len() == 38 || text@.len() == 45)
            ==> r is None,
{
    match uuid::Uuid::parse_str(text) {
        Ok(u) => Some(Uuid { bits: u.as_u128() }),
        Err(_) => None,
    }
}

/// The lower-case hexadecimal digit for a value below 16.
fn hex_digit(n: u8) -> (c: char)
    requires
        n < 16,
    ensures
        c == hex_char(n as u128),
{
    if n < 10 {
        (48u8 + n) as char
    } else {
        (87u8 + n) as char
    }
}

impl Uuid {
    /// The UUID whose big-endian number is `bits`.
    pub fn from_u128(bits: u128) -> (r: Uuid)
        ensures
            r@ == bits,
    {
        Uuid { bits }
    }

    /// The big-endian number of this UUID.
    pub fn as_u128(&self) -> (r: u128)
        ensures
            r == self@,
    {
        self.bits
    }

    /// A fresh random (version 4) UUID.
    pub fn new_v4() -> (r: Uuid)
        ensures
            is_random_v4(r@),
    {
        random_v4()
    }

    /// The hyphenated lower-case text of this UUID.
    pub fn to_string(&self) -> (r: String)
        ensures
            r@ == hyphenated(self@),
    {
        let mut out = String::new();
        let mut k: u32 = 0;
        while k < 32
            invariant
                k <= 32,
                out@ == hyphenated_prefix(self@, k as nat),
            decreases 32 - k,
        {
            if k == 8 || k == 12 || k == 16 || k == 20 {
                crate::text::push_char(&mut out, '-');
            }
            let bits: u128 = self.bits;
            let shift: u128 = (124 - 4 * k) as u128;
            let n: u128 = (bits >> shift) & 0xfu128;
            assert(n < 16) by (bit_vector)
                requires
                    n == (bits >> shift) & 0xfu128,
            ;
            let c = hex_digit(n as u8);
            crate::text::push_char(&mut out, c);
            proof {
                assert(n == nibble(self@, k as int));
                assert(out@ =~= hyphenated_prefix(self@, (k + 1) as nat));
            }
            k = k + 1;
        }
        out
    }
}

/// The number of group boundaries (8, 12, 16, 20) below `k`: the hyphens
/// that the hyphenated text holds before digit `k - 1` and the digits
/// ahead of it.
pub open spec fn hyphens_before(k: int) -> int {
    (if k > 8 { 1int } else { 0 }) + (if k > 12 { 1int } else { 0 }) + (if k > 16 {
        1int
    } else {
        0
    }) + (if k > 20 { 1int } else { 0 })
}

/// Where digit `j` stands in the hyphenated text.
pub open spec fn digit_position(j: int) -> int {
    j + hyphens_before(j + 1)
}

proof fn lemma_nibble_small(bits: u128, shift: u128)
    ensures
        (bits >> shift) & 0xfu128 < 16,
{
    assert((bits >> shift) & 0xfu128 < 16) by (bit_vector);
}

proof fn lemma_prefix_layout(bits: u128, k: nat)
    requires
        k <= 32,
    ensures
        hyphenated_prefix(bits, k).len() == k + hyphens_before(k as int),
        forall|j: int|
            0 <= j < k ==> #[trigger] hyphenated_prefix(bits, k)[digit_position(j)] == hex_char(
                nibble(bits, j),
            ),
        forall|h: int|
            0 <= h < k && hyphen_before(h) ==> #[trigger] hyphenated_prefix(bits, k)[digit_position(h)
                - 1] == '-',
    decreases k,
{
    if k > 0 {
        lemma_prefix_layout(bits, (k - 1) as nat);
        let before = hyphenated_prefix(bits, (k - 1) as nat);
        let now = hyphenated_prefix(bits, k);
        assert(now == before + digit_text(bits, k - 1));
        assert forall|h: int| 0 <= h < k && hyphen_before(h) implies #[trigger] now[digit_position(h)
            - 1] == '-' by {
            if h < k - 1 {
                assert(now[digit_position(h) - 1] == before[digit_position(h) - 1]);
            }
        }
        assert forall|j: int| 0 <= j < k implies #[trigger] now[digit_position(j)] == hex_char(
            nibble(bits, j),
        ) by {
            if j < k - 1 {
                assert(now[digit_position(j)] == before[digit_position(j)]);
            }
        }
    }
}

/// Reading a number from its top digits down: shifted right by `s`, it is
/// the number shifted by `s + 4`, moved up one digit, plus its digit at `s`.
proof fn lemma_shift_step(a: u128, s: u128)
    requires
        s <= 124,
    ensures
        a >> s == ((a >> (s + 4)) << 4u128) | ((a >> s) & 0xfu128),
{
    assert(a >> s == ((a >> (s + 4)) << 4u128) | ((a >> s) & 0xfu128)) by (bit_vector)
        requires
            s <= 124,
    ;
}

/// Two numbers that agree on their top `k` digits agree once shifted down
/// to those digits.
proof fn lemma_top_digits_agree(a: u128, b: u128, k: int)
    requires
        1 <= k <= 32,
        forall|j: int| 0 <= j < k ==> #[trigger] nibble(a, j) == nibble(b, j),
    ensures
        a >> ((128 - 4 * k) as u128) == b >> ((128 - 4 * k) as u128),
    decreases k,
{
    if k == 1 {
        assert(nibble(a, 0) == nibble(b, 0));
        assert(a >> 124u128 == (a >> 124u128) & 0xfu128) by (bit_vector);
        assert(b >> 124u128 == (b >> 124u128) & 0xfu128) by (bit_vector);
    } else {
        lemma_top_digits_agree(a, b, k - 1);
        let s: u128 = (128 - 4 * k) as u128;
        assert(nibble(a, k - 1) == nibble(b, k - 1));
        lemma_shift_step(a, s);
        lemma_shift_step(b, s);
        assert((s + 4) as u128 == (128 - 4 * (k - 1)) as u128);
    }
}

/// Distinct UUIDs have distinct hyphenated texts, so a group named after a
/// fresh UUID is a group of its own.
pub proof fn law_hyphenated_is_injective(a: u128, b: u128)
    ensures
        hyphenated(a).len() == 36,
        hyphenated(a) == hyphenated(b) ==> a == b,
{
    lemma_prefix_layout(a, 32);
    lemma_prefix_layout(b, 32);
    if hyphenated(a) == hyphenated(b) {
        assert forall|j: int| 0 <= j < 32 implies #[trigger] nibble(a, j) == nibble(b, j) by {
            assert(hyphenated(a)[digit_position(j)] == hyphenated(b)[digit_position(j)]);
            lemma_nibble_small(a, (124 - 4 * j) as u128);
            lemma_nibble_small(b, (124 - 4 * j) as u128);
            assert(hex_char(nibble(a, j)) == hex_char(nibble(b, j)));
        }
        lemma_top_digits_agree(a, b, 32);
        assert(a >> 0u128 == a) by (bit_vector);
        assert(b >> 0u128 == b) by (bit_vector);
    }
}

/// The hyphenated text has 36 characters: hyphens at 8, 13, 18 and 23, and
/// at each other place, from left to right, the next of the 32 four-bit
/// digits of the number (most significant first) written as a lower-case
/// hexadecimal digit: '0'..='9' for 0..=9, 'a'..='f' for 10..=15.
pub proof fn law_hyphenated_layout(bits: u128)
    ensures
        hyphenated(bits).len() == 36,
        hyphenated(bits)[8] == '-',
        hyphenated(bits)[13] == '-',
        hyphenated(bits)[18] == '-',
        hyphenated(bits)[23] == '-',
        forall|j: int|
            0 <= j < 32 ==> {
                let n = (bits >> ((124 - 4 * j) as u128)) & 0xfu128;
                &&& #[trigger] digit_position(j) == j + (if j >= 8 {
                    1int
                } else {
                    0
                }) + (if j >= 12 {
                    1int
                } else {
                    0
                }) + (if j >= 16 {
                    1int
                } else {
                    0
                }) + (if j >= 20 {
                    1int
                } else {
                    0
                })
                &&& hyphenated(bits)[digit_position(j)] == (if n < 10 {
                    (48 + n) as char
                } else {
                    (97 + (n - 10)) as char
                })
            },
{
    lemma_prefix_layout(bits, 32);
    assert(hyphen_before(8) && digit_position(8) - 1 == 8);
    assert(hyphen_before(12) && digit_position(12) - 1 == 13);
    assert(hyphen_before(16) && digit_position(16) - 1 == 18);
    assert(hyphen_before(20) && digit_position(20) - 1 == 23);
}

/// In the text of a version-4 UUID, the version digit (place 14) is '4'
/// and the variant digit (place 19) is one of '8', '9', 'a', 'b'.
pub proof fn law_random_v4_text(bits: u128)
    requires
        is_random_v4(bits),
    ensures
        hyphenated(bits)[14] == '4',
        hyphenated(bits)[19] == '8' || hyphenated(bits)[19] == '9' || hyphenated(bits)[19] == 'a'
            || hyphenated(bits)[19] == 'b',
{
    law_hyphenated_layout(bits);
    assert(digit_position(12) == 14);
    assert(digit_position(16) == 19);
    let v = (bits >> 60u128) & 0xfu128;
    assert(8 <= v <= 11) by (bit_vector)
        requires
            (bits >> 62u128) & 0x3u128 == 2u128,
            v == (bits >> 60u128) & 0xfu128,
    ;
    assert(nibble(bits, 16) == v);
    assert(nibble(bits, 12) == 4);
}

/// A text denotes a UUID exactly when it parses as one, and then that UUID;
/// otherwise it is a tag holding the text unchanged.
pub proof fn law_identifier_of_text(text: Seq<char>)
    ensures
        (identifier_of_text(text) is Tag) <==> (uuid_parse(text) is None),
        identifier_of_text(text) matches IdentifierView::Tag(t) ==> t == text,
        identifier_of_text(text) matches IdentifierView::Uuid(b) ==> uuid_parse(text) == Some(b),
{
}

// ---------------------------------------------------------- Identifier

/// Someone an event is addressed to: a UUID, or a free-form tag.
#[derive(Clone, Debug)]
pub enum Identifier {
    Uuid(Uuid),
    Tag(String),
}

/// The value of an [`Identifier`].
pub enum IdentifierView {
    Uuid(u128),
    Tag(Seq<char>),
}

impl View for Identifier {
    type V = IdentifierView;

    open spec fn view(&self) -> IdentifierView {
        match self {
            Identifier::Uuid(u) => IdentifierView::Uuid(u@),
            Identifier::Tag(t) => IdentifierView::Tag(t@),
        }
    }
}

/// The identifier that a text denotes: the UUID it spells, and otherwise
/// the text itself as a tag.
pub open spec fn identifier_of_text(text: Seq<char>) -> IdentifierView {
    match uuid_parse(text) {
        Some(bits) => IdentifierView::Uuid(bits),
        None => IdentifierView::Tag(text),
    }
}

impl Identifier {
    /// The identifier of `text`, given what parsing `text` as a UUID gave:
    /// that UUID, and otherwise `text` as a tag.
    pub fn from_parsed(text: &str, parsed: Option<Uuid>) -> (r: Identifier)
        ensures
            r@ == (match parsed {
                Some(u) => IdentifierView::Uuid(u@),
                None => IdentifierView::Tag(text@),
            }),
    {
        match parsed {
            Some(u) => Identifier::Uuid(u),
            None => Identifier::Tag(text.to_owned()),
        }
    }

    /// Reads an identifier from text: a UUID where the text spells one,
    /// a tag otherwise. Never fails.
    pub fn parse(text: &str) -> (r: Identifier)
        ensures
            r@ == identifier_of_text(text@),
            !(text@.len() == 32 || text@.len() == 36 || text@.len() == 38 || text@.len() == 45)
                ==> r@ == IdentifierView::Tag(text@),
            forall|b: u128| text@ == #[trigger] hyphenated(b) ==> r@ == IdentifierView::Uuid(b),
    {
        let parsed = parse_uuid(text);
        Identifier::from_parsed(text, parsed)
    }
}

impl From<Uuid> for Identifier {
    fn from(value: Uuid) -> (r: Identifier) {
        Identifier::Uuid(value)
    }
}

impl vstd::std_specs::convert::FromSpecImpl<Uuid> for Identifier {
    open spec fn obeys_from_spec() -> bool {
        true
    }

    open spec fn from_spec(v: Uuid) -> Identifier {
        Identifier::Uuid(v)
    }
}

impl<'a> From<&'a str> for Identifier {
    fn from(value: &'a str) -> (r: Identifier)
        ensures
            r@ == identifier_of_text(value@),
            forall|b: u128| value@ == #[trigger] hyphenated(b) ==> r@ == IdentifierView::Uuid(b),
    {
        Identifier::parse(value)
    }
}

impl<'a> vstd::std_specs::convert::FromSpecImpl<&'a str> for Identifier {
    open spec fn obeys_from_spec() -> bool {
        false
    }

    /// Not used: an identifier holds a `String`, and two strings with the
    /// same text need not be equal as values, so the conversion is stated
    /// over the view in the `ensures` of `from` instead.
    open spec fn from_spec(v: &'a str) -> Identifier {
        arbitrary()
    }
}

impl std::str::FromStr for Identifier {
    type Err = String;

    fn from_str(s: &str) -> (r: Result<Identifier, String>)
        ensures
            r matches Ok(id) && id@ == identifier_of_text(s@),
            forall|b: u128|
                s@ == #[trigger] hyphenated(b) ==> (r matches Ok(id) && id@ == IdentifierView::Uuid(
                    b,
                )),
    {
        Ok(Identifier::parse(s))
    }
}

// ------------------------------------------------------------ metadata

/// `jiff::Timestamp`, an instant; carried through the metadata unread.
#[verifier::external_type_specification]
#[verifier::external_body]
pub struct ExTimestamp(jiff::Timestamp);

/// `Clone` of `jiff::Timestamp`: the type is `Copy`, so a clone is the
/// same instant.
pub assume_specification[ <jiff::Timestamp as Clone>::clone ](t: &jiff::Timestamp) -> (r:
    jiff::Timestamp)
    ensures
        r == *t,
;

/// `jiff::Timestamp::now`: the current system time. What instant comes
/// back is left unsaid; jiff panics where the system clock lies outside
/// the years -9999..=9999.
#[verifier::external_body]
fn current_time() -> (r: jiff::Timestamp) {
    jiff::Timestamp::now()
}

/// The number of an optional UUID.
pub open spec fn uuid_bits(u: Option<Uuid>) -> Option<u128> {
    match u {
        Some(x) => Some(x@),
        None => None,
    }
}

/// The text of an optional string.
pub open spec fn text_of(s: Option<String>) -> Option<Seq<char>> {
    match s {
        Some(x) => Some(x@),
        None => None,
    }
}

/// The metadata that every event carries.
#[derive(Clone, Debug)]
pub struct EventMetaData {
    pub event_id: Uuid,
    pub event_version: String,
    pub occurred_at: jiff::Timestamp,
    pub producer: Option<String>,
    pub correlation_id: Option<Uuid>,
    pub trace_id: Option<Uuid>,
    pub user_id: Option<Uuid>,
    pub audience: Vec<Identifier>,
    pub session_id: Option<Uuid>,
}

/// The value of an [`EventMetaData`].
pub struct EventMetaDataView {
    pub event_id: u128,
    pub event_version: Seq<char>,
    pub occurred_at: jiff::Timestamp,
    pub producer: Option<Seq<char>>,
    pub correlation_id: Option<u128>,
    pub trace_id: Option<u128>,
    pub user_id: Option<u128>,
    pub audience: Seq<IdentifierView>,
    pub session_id: Option<u128>,
}

impl View for EventMetaData {
    type V = EventMetaDataView;

    open spec fn view(&self) -> EventMetaDataView {
        EventMetaDataView {
            event_id: self.event_id@,
            event_version: self.event_version@,
            occurred_at: self.occurred_at,
            producer: text_of(self.producer),
            correlation_id: uuid_bits(self.correlation_id),
            trace_id: uuid_bits(self.trace_id),
            user_id: uuid_bits(self.user_id),
            audience: self.audience@.map_values(|i: Identifier| i@),
            session_id: uuid_bits(self.session_id),
        }
    }
}

/// Metadata as it is first made: a random version-4 event id, version
/// "v1", no producer, no correlation, trace, user or session id, and no
/// audience.
pub open spec fn is_fresh(m: EventMetaDataView) -> bool {
    &&& is_random_v4(m.event_id)
    &&& m.event_version == "v1"@
    &&& m.producer is None
    &&& m.correlation_id is None
    &&& m.trace_id is None
    &&& m.user_id is None
    &&& m.session_id is None
    &&& m.audience == Seq::<IdentifierView>::empty()
}

/// Fresh metadata has version "v1", a version-4 event id, no producer,
/// no correlation, trace, user or session id, and an empty audience.
pub proof fn law_fresh_metadata(m: EventMetaDataView)
    requires
        is_fresh(m),
    ensures
        m.event_version == seq!['v', '1'],
        (m.event_id >> 76u128) & 0xfu128 == 4,
        m.producer == None::<Seq<char>>,
        m.correlation_id == None::<u128>,
        m.trace_id == None::<u128>,
        m.user_id == None::<u128>,
        m.session_id == None::<u128>,
        m.audience.len() == 0,
{
    reveal_strlit("v1");
    assert(m.event_version =~= seq!['v', '1']);
}

impl EventMetaData {
    /// Fresh metadata, stamped with the current time.
    pub fn new() -> (r: EventMetaData)
        ensures
            is_fresh(r@),
    {
        let r = EventMetaData {
            event_id: Uuid::new_v4(),
            event_version: "v1".to_owned(),
            occurred_at: current_time(),
            producer: None,
            correlation_id: None,
            trace_id: None,
            user_id: None,
            session_id: None,
            audience: Vec::new(),
        };
        assert(r@.audience =~= Seq::<IdentifierView>::empty());
        r
    }

    /// The same metadata with `producer` as its producer.
    pub fn with_producer(self, producer: &str) -> (r: EventMetaData)
        ensures
            r@ == (EventMetaDataView { producer: Some(producer@), ..self@ }),
    {
        let mut m = self;
        m.producer = Some(producer.to_owned());
        m
    }

    /// The same metadata with `id` as its correlation id.
    pub fn with_correlation_id(self, id: Uuid) -> (r: EventMetaData)
        ensures
            r@ == (EventMetaDataView { correlation_id: Some(id@), ..self@ }),
    {
        let mut m = self;
        m.correlation_id = Some(id);
        m
    }

    /// The same metadata with `id` as its trace id.
    pub fn with_trace_id(self, id: Uuid) -> (r: EventMetaData)
        ensures
            r@ == (EventMetaDataView { trace_id: Some(id@), ..self@ }),
    {
        let mut m = self;
        m.trace_id = Some(id);
        m
    }

    /// The same metadata with `id` as its user id.
    pub fn with_user_id(self, id: Uuid) -> (r: EventMetaData)
        ensures
            r@ == (EventMetaDataView { user_id: Some(id@), ..self@ }),
    {
        let mut m = self;
        m.user_id = Some(id);
        m
    }

    /// The same metadata with `id` as its session id.
    pub fn with_session_id(self, id: Uuid) -> (r: EventMetaData)
        ensures
            r@ == (EventMetaDataView { session_id: Some(id@), ..self@ }),
    {
        let mut m = self;
        m.session_id = Some(id);
        m
    }

    /// The same metadata with `aud` in place of its audience.
    pub fn with_audience(self, aud: Vec<Identifier>) -> (r: EventMetaData)
        ensures
            r@ == (EventMetaDataView { audience: aud@.map_values(|i: Identifier| i@), ..self@ }),
            r.audience@ == aud@,
    {
        let mut m = self;
        m.audience = aud;
        m
    }
}

// --------------------------------------------------------------- Event

/// An event: its metadata and its payload.
pub struct Event<T> {
    pub metadata: EventMetaData,
    pub payload: T,
}

impl<T: EventType> Event<T> {
    /// The event of `payload`, with fresh metadata.
    pub fn new(payload: T) -> (r: Event<T>)
        ensures
            r.payload == payload,
            is_fresh(r.metadata@),
    {
        let metadata = EventMetaData::new();
        Event { metadata, payload }
    }

    /// The same event with `producer` as its producer.
    pub fn with_producer(self, producer: &str) -> (r: Event<T>)
        ensures
            r.payload == self.payload,
            r.metadata@ == (EventMetaDataView { producer: Some(producer@), ..self.metadata@ }),
    {
        let Event { metadata, payload } = self;
        Event { metadata: metadata.with_producer(producer), payload }
    }

    /// The same event with `id` as its correlation id.
    pub fn with_correlation_id(self, id: Uuid) -> (r: Event<T>)
        ensures
            r.payload == self.payload,
            r.metadata@ == (EventMetaDataView { correlation_id: Some(id@), ..self.metadata@ }),
    {
        let Event { metadata, payload } = self;
        Event { metadata: metadata.with_correlation_id(id), payload }
    }

    /// The same event with `id` as its trace id.
    pub fn with_trace_id(self, id: Uuid) -> (r: Event<T>)
        ensures
            r.payload == self.payload,
            r.metadata@ == (EventMetaDataView { trace_id: Some(id@), ..self.metadata@ }),
    {
        let Event { metadata, payload } = self;
        Event { metadata: metadata.with_trace_id(id), payload }
    }

    /// The same event with `id` as its user id.
    pub fn with_user_id(self, id: Uuid) -> (r: Event<T>)
        ensures
            r.payload == self.payload,
            r.metadata@ == (EventMetaDataView { user_id: Some(id@), ..self.metadata@ }),
    {
        let Event { metadata, payload } = self;
        Event { metadata: metadata.with_user_id(id), payload }
    }

    /// The same event with `id` as its session id.
    pub fn with_session_id(self, id: Uuid) -> (r: Event<T>)
        ensures
            r.payload == self.payload,
            r.metadata@ == (EventMetaDataView { session_id: Some(id@), ..self.metadata@ }),
    {
        let Event { metadata, payload } = self;
        Event { metadata: metadata.with_session_id(id), payload }
    }

    /// The same event addressed to `aud` in place of its audience, each
    /// entry converted to an [`Identifier`] in order.
    pub fn with_audience<U>(self, aud: Vec<U>) -> (r: Event<T>) where Identifier: From<U>
        ensures
            r.payload == self.payload,
            r.metadata@ == (EventMetaDataView { audience: r.metadata@.audience, ..self.metadata@ }),
            r.metadata.audience@.len() == aud@.len(),
            forall|i: int|
                0 <= i < aud@.len() ==> call_ensures(
                    <Identifier as From<U>>::from,
                    (aud@[i],),
                    #[trigger] r.metadata.audience@[i],
                ),
    {
        let Event { metadata, payload } = self;
        let ghost items = aud@;
        let mut converted: Vec<Identifier> = Vec::new();
        for u in it: aud
            invariant
                it.seq() == items,
                converted@.len() == it.index(),
                forall|k: int|
                    0 <= k < converted@.len() ==> call_ensures(
                        <Identifier as From<U>>::from,
                        (items[k],),
                        #[trigger] converted@[k],
                    ),
        {
            let id = Identifier::from(u);
            converted.push(id);
        }
        let metadata = metadata.with_audience(converted);
        Event { metadata, payload }
    }

    /// The same event with one more entry, `aud` converted to an
    /// [`Identifier`], at the end of its audience.
    pub fn add_audience<U>(self, aud: U) -> (r: Event<T>) where Identifier: From<U>
        ensures
            r.payload == self.payload,
            r.metadata@ == (EventMetaDataView { audience: r.metadata@.audience, ..self.metadata@ }),
            r.metadata.audience@.len() == self.metadata.audience@.len() + 1,
            r.metadata.audience@.take(self.metadata.audience@.len() as int)
                == self.metadata.audience@,
            call_ensures(
                <Identifier as From<U>>::from,
                (aud,),
                r.metadata.audience@[self.metadata.audience@.len() as int],
            ),
    {
        let Event { mut metadata, payload } = self;
        let id = Identifier::from(aud);
        metadata.audience.push(id);
        proof {
            assert(metadata.audience@.take(self.metadata.audience@.len() as int)
                =~= self.metadata.audience@);
            assert(metadata@.audience =~= metadata.audience@.map_values(|i: Identifier| i@));
        }
        Event { metadata, payload }
    }
}

} // verus!
