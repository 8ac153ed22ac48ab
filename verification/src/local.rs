//! The in-process bus: which subscriptions a message published on a
//! subject goes to.
use vstd::prelude::*;
use crate::text::same_text;

verus! {

/// `dashmap::DashMap`, the concurrent map that indexes subscriptions by
/// subject.
#[verifier::external_type_specification]
#[verifier::external_body]
#[verifier::reject_recursive_types(K)]
#[verifier::reject_recursive_types(V)]
#[verifier::reject_recursive_types(S)]
pub struct ExDashMap<K, V, S>(dashmap::DashMap<K, V, S>);

/// The index of an in-process bus: for each subject, the positions of its
/// subscriptions.
pub type SubjectIndex = dashmap::DashMap<String, Vec<usize>>;

/// What a subscription index holds: for each subject, the positions of
/// its subscriptions.
pub uninterp spec fn index_entries(map: SubjectIndex) -> Map<Seq<char>, Seq<usize>>;

/// `DashMap::new`: an empty map.
#[verifier::external_body]
fn index_new() -> (r: SubjectIndex)
    ensures
        index_entries(r).dom() == Set::<Seq<char>>::empty(),
{
    dashmap::DashMap::new()
}

/// `DashMap::get`: the positions stored under `subject`, copied out of the
/// map, or `None` where the subject has no entry.
#[verifier::external_body]
fn index_get(map: &SubjectIndex, subject: &str) -> (r: Option<Vec<usize>>)
    ensures
        match r {
            Some(v) => index_entries(*map).contains_key(subject@) && v@ == index_entries(
                *map,
            )[subject@],
            None => !index_entries(*map).contains_key(subject@),
        },
{
    match map.get(subject) {
        Some(entry) => Some(entry.value().clone()),
        None => None,
    }
}

/// `DashMap::insert`: stores `positions` under `subject`, in place of
/// what was there.
#[verifier::external_body]
fn index_put(map: &mut SubjectIndex, subject: String, positions: Vec<usize>)
    ensures
        index_entries(*final(map)) == index_entries(*old(map)).insert(subject@, positions@),
{
    map.insert(subject, positions);
}

/// The receivers of a message on `subject`: the senders of the
/// subscriptions made on exactly that subject, in the order in which they
/// were made.
pub open spec fn receivers<S>(subscriptions: Seq<(Seq<char>, S)>, subject: Seq<char>) -> Seq<S>
    decreases subscriptions.len(),
{
    if subscriptions.len() == 0 {
        seq![]
    } else {
        let rest = receivers(subscriptions.drop_last(), subject);
        if subscriptions.last().0 == subject {
            rest.push(subscriptions.last().1)
        } else {
            rest
        }
    }
}

/// The positions of the subscriptions made on `subject`, in increasing
/// order.
pub open spec fn positions_on(topics: Seq<Seq<char>>, subject: Seq<char>) -> Seq<usize>
    decreases topics.len(),
{
    if topics.len() == 0 {
        seq![]
    } else {
        let rest = positions_on(topics.drop_last(), subject);
        if topics.last() == subject {
            rest.push((topics.len() - 1) as usize)
        } else {
            rest
        }
    }
}

/// The entry that an index holds for a subject, empty where it has none.
pub open spec fn entry_of(entries: Map<Seq<char>, Seq<usize>>, subject: Seq<char>) -> Seq<usize> {
    if entries.contains_key(subject) {
        entries[subject]
    } else {
        seq![]
    }
}

/// Capacity of each subscriber's queue in a bus made by
/// [`LocalEventStream::reliable`].
pub const RELIABLE_CAPACITY: usize = 8192;

/// The registry of an in-process bus: every subscription with its sender,
/// indexed by subject, and the capacity of each subscriber's queue.
pub struct LocalEventStream<S> {
    subs: SubjectIndex,
    senders: Vec<S>,
    topics: Vec<String>,
    channel_capacity: usize,
}

impl<S> LocalEventStream<S> {
    #[verifier::type_invariant]
    spec fn index_matches(&self) -> bool {
        &&& self.topics@.len() == self.senders@.len()
        &&& forall|subject: Seq<char>|
            #![trigger entry_of(index_entries(self.subs), subject)]
            entry_of(index_entries(self.subs), subject) == positions_on(self.subjects(), subject)
    }

    /// The subject of each subscription, in order.
    closed spec fn subjects(&self) -> Seq<Seq<char>> {
        self.topics@.map_values(|t: String| t@)
    }

    /// Every subscription held, in the order in which they were made: its
    /// subject and its sender.
    pub closed spec fn subscriptions(&self) -> Seq<(Seq<char>, S)> {
        pairs(self.subjects(), self.senders@)
    }

    /// The capacity of each subscriber's queue.
    pub closed spec fn capacity(&self) -> usize {
        self.channel_capacity
    }

    /// A bus with no subscriptions, whose subscribers' queues hold
    /// `channel_capacity` messages.
    pub fn new(channel_capacity: usize) -> (r: LocalEventStream<S>)
        ensures
            r.subscriptions() == Seq::<(Seq<char>, S)>::empty(),
            r.capacity() == channel_capacity,
    {
        let r = LocalEventStream {
            subs: index_new(),
            senders: Vec::new(),
            topics: Vec::new(),
            channel_capacity,
        };
        assert(r.subscriptions() =~= Seq::<(Seq<char>, S)>::empty());
        r
    }

    /// A bus with no subscriptions and queues of [`RELIABLE_CAPACITY`]
    /// messages.
    pub fn reliable() -> (r: LocalEventStream<S>)
        ensures
            r.subscriptions() == Seq::<(Seq<char>, S)>::empty(),
            r.capacity() == RELIABLE_CAPACITY,
            r.capacity() == 8192,
    {
        Self::new(RELIABLE_CAPACITY)
    }

    /// The capacity of each subscriber's queue.
    pub fn channel_capacity(&self) -> (r: usize)
        ensures
            r == self.capacity(),
    {
        self.channel_capacity
    }

    /// Records a subscription of `sender` on `subject`, after all earlier
    /// ones.
    fn record(&mut self, subject: String, sender: S)
        ensures
            final(self).subscriptions() == old(self).subscriptions().push((subject@, sender)),
            final(self).capacity() == old(self).capacity(),
    {
        proof {
            use_type_invariant(&*self);
        }
        let ghost before = self.subscriptions();
        let mut taken = Self::new(self.channel_capacity);
        std::mem::swap(self, &mut taken);
        let LocalEventStream { mut subs, mut senders, mut topics, channel_capacity } = taken;
        let ghost old_subjects = topics@.map_values(|t: String| t@);
        let ghost old_entries = index_entries(subs);
        assert(entry_of(old_entries, subject@) == positions_on(old_subjects, subject@));
        let mut positions = match index_get(&subs, subject.as_str()) {
            Some(v) => v,
            None => Vec::new(),
        };
        let position = senders.len();
        positions.push(position);
        senders.push(sender);
        topics.push(subject.clone());
        let ghost new_subjects = topics@.map_values(|t: String| t@);
        index_put(&mut subs, subject, positions);
        proof {
            assert(new_subjects =~= old_subjects.push(subject@));
            assert(new_subjects.drop_last() =~= old_subjects);
            assert forall|t: Seq<char>|
                #![trigger entry_of(index_entries(subs), t)]
                entry_of(index_entries(subs), t) == positions_on(new_subjects, t) by {
                assert(entry_of(old_entries, t) == positions_on(old_subjects, t));
                if t != subject@ {
                    assert(entry_of(index_entries(subs), t) == entry_of(old_entries, t));
                }
            }
        }
        *self = LocalEventStream { subs, senders, topics, channel_capacity };
        assert(self.subscriptions() =~= before.push((subject@, sender)));
    }

    /// Records a subscription of `sender` on `subject`, after all earlier
    /// ones. A subscriber's queue must hold at least one message.
    pub fn subscribe(&mut self, subject: String, sender: S)
        requires
            old(self).capacity() > 0,
        ensures
            final(self).subscriptions() == old(self).subscriptions().push((subject@, sender)),
            final(self).capacity() == old(self).capacity(),
    {
        self.record(subject, sender);
    }

    /// The senders to which a message published on `subject` goes: those
    /// of the subscriptions made on exactly `subject`, in the order in
    /// which they were made. No subscription, no receiver.
    pub fn recipients(&self, subject: &str) -> (r: Vec<&S>)
        ensures
            r@.len() == receivers(self.subscriptions(), subject@).len(),
            forall|i: int|
                0 <= i < r@.len() ==> *r@[i] == #[trigger] receivers(
                    self.subscriptions(),
                    subject@,
                )[i],
    {
        let count = self.senders.len();
        proof {
            use_type_invariant(self);
            assert(count == self.senders@.len());
            lemma_receivers_at_positions(self.subjects(), self.senders@, subject@);
            assert(entry_of(index_entries(self.subs), subject@) == positions_on(
                self.subjects(),
                subject@,
            ));
        }
        let positions = match index_get(&self.subs, subject) {
            Some(v) => v,
            None => Vec::new(),
        };
        let ghost expected = receivers(self.subscriptions(), subject@);
        let mut out: Vec<&S> = Vec::new();
        let n = positions.len();
        for k in 0..n
            invariant
                n == positions@.len(),
                positions@ == positions_on(self.subjects(), subject@),
                self.subjects().len() == self.senders@.len(),
                expected.len() == n,
                forall|j: int| 0 <= j < n ==> positions@[j] < self.senders@.len(),
                forall|j: int| 0 <= j < n ==> expected[j] == self.senders@[positions@[j] as int],
                out@.len() == k,
                forall|j: int| 0 <= j < k ==> *out@[j] == expected[j],
        {
            let p = positions[k];
            out.push(&self.senders[p]);
        }
        out
    }

    /// Drops the subscriptions on `subject` whose subscribers are gone:
    /// `live[k]` tells whether the `k`-th receiver of `subject` (in the order
    /// of [`LocalEventStream::recipients`]) is still there. Subscriptions on
    /// other subjects, and the live ones, keep their order.
    pub fn retain_live(&mut self, subject: &str, live: &Vec<bool>)
        requires
            live@.len() == receivers(old(self).subscriptions(), subject@).len(),
        ensures
            final(self).subscriptions() == retained(old(self).subscriptions(), subject@, live@),
            final(self).capacity() == old(self).capacity(),
    {
        let ghost before = self.subscriptions();
        let mut taken = Self::new(self.channel_capacity);
        std::mem::swap(self, &mut taken);
        proof {
            use_type_invariant(&taken);
        }
        let LocalEventStream { subs, senders, topics, channel_capacity } = taken;
        assert(before =~= pairs(topics@.map_values(|t: String| t@), senders@));
        let n = topics.len();
        let marks = live.len();
        let mut seen: usize = 0;
        let mut k: usize = 0;
        for sender in it: senders
            invariant
                n == topics@.len(),
                marks == live@.len(),
                it.seq().len() == n,
                forall|j: int| 0 <= j < n ==> #[trigger] it.seq()[j] == before[j].1,
                forall|j: int| 0 <= j < n ==> #[trigger] topics@[j]@ == before[j].0,
                before.len() == n,
                k == it.index(),
                live@.len() == receivers(before, subject@).len(),
                seen == receivers(before.take(k as int), subject@).len(),
                self.subscriptions() == retained(before.take(k as int), subject@, live@),
                self.capacity() == channel_capacity,
        {
            proof {
                lemma_receivers_grow(before, subject@, k as int);
                assert(before.take(k + 1).drop_last() =~= before.take(k as int));
                assert(before.take(k + 1).last() == before[k as int]);
            }
            let topic = &topics[k];
            if same_text(topic.as_str(), subject) {
                if live[seen] {
                    self.record(topic.clone(), sender);
                }
                seen = seen + 1;
            } else {
                self.record(topic.clone(), sender);
            }
            k = k + 1;
        }
        assert(before.take(n as int) =~= before);
    }
}

/// Each subscription's subject next to its sender.
pub open spec fn pairs<S>(topics: Seq<Seq<char>>, senders: Seq<S>) -> Seq<(Seq<char>, S)> {
    Seq::new(senders.len(), |i: int| (topics[i], senders[i]))
}

/// The receivers on a subject are the senders at the positions of the
/// subscriptions on that subject, and those positions are in range.
proof fn lemma_receivers_at_positions<S>(
    topics: Seq<Seq<char>>,
    senders: Seq<S>,
    subject: Seq<char>,
)
    requires
        topics.len() == senders.len(),
        topics.len() <= usize::MAX,
    ensures
        receivers(pairs(topics, senders), subject).len() == positions_on(topics, subject).len(),
        forall|j: int|
            0 <= j < positions_on(topics, subject).len() ==> #[trigger] positions_on(
                topics,
                subject,
            )[j] < topics.len(),
        forall|j: int|
            0 <= j < positions_on(topics, subject).len() ==> #[trigger] receivers(
                pairs(topics, senders),
                subject,
            )[j] == senders[positions_on(topics, subject)[j] as int],
    decreases topics.len(),
{
    if topics.len() > 0 {
        let t = topics.drop_last();
        let s = senders.drop_last();
        lemma_receivers_at_positions(t, s, subject);
        assert(pairs(topics, senders).drop_last() =~= pairs(t, s));
        let old_positions = positions_on(t, subject);
        let full = pairs(topics, senders);
        assert(full.last() == (topics.last(), senders.last()));
        let now = positions_on(topics, subject);
        let got = receivers(full, subject);
        assert forall|j: int| 0 <= j < now.len() implies #[trigger] got[j] == senders[now[j] as int] by {
            if j < old_positions.len() {
                assert(now[j] == old_positions[j]);
                assert(old_positions[j] < t.len());
                assert(receivers(pairs(t, s), subject)[j] == s[old_positions[j] as int]);
                assert(got[j] == receivers(pairs(t, s), subject)[j]);
            } else {
                assert(topics.last() == subject);
                assert(now[j] == topics.len() - 1);
                assert(got[j] == senders.last());
            }
        }
    }
}

// ---------------------------------------------------------------- laws

/// The receivers of a subject are exactly the senders of the subscriptions
/// made on that subject, each once, in the order of subscription: subjects
/// match exactly, with no wildcards.
pub proof fn law_exact_subject_match<S>(subscriptions: Seq<(Seq<char>, S)>, subject: Seq<char>)
    ensures
        receivers(subscriptions, subject) == subscriptions.filter(
            |p: (Seq<char>, S)| p.0 == subject,
        ).map_values(|p: (Seq<char>, S)| p.1),
    decreases subscriptions.len(),
{
    let on_subject = |p: (Seq<char>, S)| p.0 == subject;
    let sender_of = |p: (Seq<char>, S)| p.1;
    if subscriptions.len() == 0 {
        reveal(Seq::filter);
        assert(subscriptions.filter(on_subject) =~= Seq::<(Seq<char>, S)>::empty());
        assert(subscriptions.filter(on_subject).map_values(sender_of) =~= Seq::<S>::empty());
    } else {
        let rest = subscriptions.drop_last();
        let last = subscriptions.last();
        law_exact_subject_match(rest, subject);
        assert(rest.push(last) =~= subscriptions);
        rest.lemma_filter_push(last, on_subject);
        if last.0 == subject {
            assert(rest.filter(on_subject).push(last).map_values(sender_of) =~= rest.filter(
                on_subject,
            ).map_values(sender_of).push(last.1));
        }
    }
}

/// A subscription takes effect at once: a message on its subject goes to
/// every earlier receiver and then to the new one, and a message on any
/// other subject goes where it went before.
pub proof fn law_subscribe_then_publish<S>(
    subscriptions: Seq<(Seq<char>, S)>,
    subject: Seq<char>,
    sender: S,
    other: Seq<char>,
)
    ensures
        receivers(subscriptions.push((subject, sender)), subject) == receivers(
            subscriptions,
            subject,
        ).push(sender),
        other != subject ==> receivers(subscriptions.push((subject, sender)), other) == receivers(
            subscriptions,
            other,
        ),
{
    assert(subscriptions.push((subject, sender)).drop_last() =~= subscriptions);
}

/// A message on a subject that nobody subscribed to goes nowhere.
pub proof fn law_no_subscriber_no_receiver<S>(subscriptions: Seq<(Seq<char>, S)>, subject: Seq<char>)
    requires
        forall|i: int| 0 <= i < subscriptions.len() ==> #[trigger] subscriptions[i].0 != subject,
    ensures
        receivers(subscriptions, subject) == Seq::<S>::empty(),
    decreases subscriptions.len(),
{
    if subscriptions.len() > 0 {
        let rest = subscriptions.drop_last();
        assert forall|i: int| 0 <= i < rest.len() implies #[trigger] rest[i].0 != subject by {
            assert(rest[i] == subscriptions[i]);
        }
        law_no_subscriber_no_receiver(rest, subject);
        assert(subscriptions.last() == subscriptions[subscriptions.len() - 1]);
    }
}

/// What stays of the subscriptions when those on `subject` are kept or
/// dropped by their marks: the `k`-th subscription on `subject` stays
/// exactly when `live[k]` holds, and every other subscription stays.
pub open spec fn retained<S>(
    subscriptions: Seq<(Seq<char>, S)>,
    subject: Seq<char>,
    live: Seq<bool>,
) -> Seq<(Seq<char>, S)>
    decreases subscriptions.len(),
{
    if subscriptions.len() == 0 {
        seq![]
    } else {
        let rest = retained(subscriptions.drop_last(), subject, live);
        let last = subscriptions.last();
        if last.0 != subject || live[receivers(subscriptions.drop_last(), subject).len() as int] {
            rest.push(last)
        } else {
            rest
        }
    }
}

/// The items whose marks hold, in order.
pub open spec fn kept<S>(items: Seq<S>, live: Seq<bool>) -> Seq<S>
    decreases items.len(),
{
    if items.len() == 0 {
        seq![]
    } else {
        let rest = kept(items.drop_last(), live);
        if live[items.len() - 1] {
            rest.push(items.last())
        } else {
            rest
        }
    }
}

/// Each item next to its mark.
pub open spec fn marked<S>(items: Seq<S>, live: Seq<bool>) -> Seq<(S, bool)> {
    Seq::new(items.len(), |k: int| (items[k], live[k]))
}

/// The items whose marks hold, in order, picked by filtering.
pub open spec fn live_only<S>(items: Seq<S>, live: Seq<bool>) -> Seq<S> {
    marked(items, live).filter(|p: (S, bool)| p.1).map_values(|p: (S, bool)| p.0)
}

/// The receivers of a prefix of the subscriptions are never more than
/// those of the whole, and a subscription on the subject right after the
/// prefix adds one.
proof fn lemma_receivers_grow<S>(subscriptions: Seq<(Seq<char>, S)>, subject: Seq<char>, k: int)
    requires
        0 <= k < subscriptions.len(),
    ensures
        receivers(subscriptions.take(k + 1), subject).len() <= receivers(
            subscriptions,
            subject,
        ).len(),
        receivers(subscriptions.take(k + 1), subject).len() == receivers(
            subscriptions.take(k),
            subject,
        ).len() + (if subscriptions[k].0 == subject {
            1int
        } else {
            0
        }),
    decreases subscriptions.len() - k,
{
    assert(subscriptions.take(k + 1).drop_last() =~= subscriptions.take(k));
    if k + 1 < subscriptions.len() {
        lemma_receivers_grow(subscriptions, subject, k + 1);
    } else {
        assert(subscriptions.take(k + 1) =~= subscriptions);
    }
}

/// Dropping the gone subscribers of a subject leaves exactly its live
/// receivers, in order, and leaves every other subject's receivers as they
/// were: dead subscribers are cleaned up and nobody else is touched.
pub proof fn law_retain_live<S>(
    subscriptions: Seq<(Seq<char>, S)>,
    subject: Seq<char>,
    live: Seq<bool>,
    other: Seq<char>,
)
    ensures
        receivers(retained(subscriptions, subject, live), subject) == live_only(
            receivers(subscriptions, subject),
            live,
        ),
        receivers(retained(subscriptions, subject, live), subject) == kept(
            receivers(subscriptions, subject),
            live,
        ),
        other != subject ==> receivers(retained(subscriptions, subject, live), other) == receivers(
            subscriptions,
            other,
        ),
    decreases subscriptions.len(),
{
    if subscriptions.len() > 0 {
        let rest = subscriptions.drop_last();
        let last = subscriptions.last();
        law_retain_live(rest, subject, live, other);
        let kept_rest = retained(rest, subject, live);
        assert(kept_rest.push(last).drop_last() =~= kept_rest);
        let before = receivers(rest, subject);
        let marks = marked(before, live);
        let is_live = |p: (S, bool)| p.1;
        let item = |p: (S, bool)| p.0;
        if last.0 == subject {
            let after = receivers(subscriptions, subject);
            assert(after == before.push(last.1));
            assert(after.drop_last() =~= before);
            assert(marked(after, live) =~= marks.push((last.1, live[before.len() as int])));
            marks.lemma_filter_push((last.1, live[before.len() as int]), is_live);
            if live[before.len() as int] {
                assert(marks.filter(is_live).push((last.1, true)).map_values(item) =~= marks.filter(
                    is_live,
                ).map_values(item).push(last.1));
            }
        }
    }
}

/// Where every receiver of the subject is live, nothing is dropped.
pub proof fn law_all_live_keeps_everything<S>(
    subscriptions: Seq<(Seq<char>, S)>,
    subject: Seq<char>,
    live: Seq<bool>,
)
    requires
        forall|k: int| 0 <= k < live.len() ==> #[trigger] live[k],
        live.len() == receivers(subscriptions, subject).len(),
    ensures
        retained(subscriptions, subject, live) == subscriptions,
    decreases subscriptions.len(),
{
    if subscriptions.len() > 0 {
        let rest = subscriptions.drop_last();
        let last = subscriptions.last();
        assert(subscriptions =~= rest.push(last));
        assert(rest.push(last).drop_last() =~= rest);
        let shorter = live.take(receivers(rest, subject).len() as int);
        assert(receivers(rest, subject).len() <= live.len());
        law_all_live_keeps_everything(rest, subject, shorter);
        lemma_retained_marks_prefix(rest, subject, live, shorter);
    }
}

/// Only the marks of the subscriptions present matter.
proof fn lemma_retained_marks_prefix<S>(
    subscriptions: Seq<(Seq<char>, S)>,
    subject: Seq<char>,
    live: Seq<bool>,
    shorter: Seq<bool>,
)
    requires
        receivers(subscriptions, subject).len() <= shorter.len() <= live.len(),
        forall|k: int| 0 <= k < shorter.len() ==> shorter[k] == live[k],
    ensures
        retained(subscriptions, subject, live) == retained(subscriptions, subject, shorter),
    decreases subscriptions.len(),
{
    if subscriptions.len() > 0 {
        let rest = subscriptions.drop_last();
        if subscriptions.last().0 == subject {
            assert(receivers(subscriptions, subject).len() == receivers(rest, subject).len() + 1);
        }
        lemma_retained_marks_prefix(rest, subject, live, shorter);
    }
}

} // verus!
