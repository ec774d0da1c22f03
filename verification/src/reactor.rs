//! The reactor's bookkeeping: which task waits on which channel or I/O source, and
//! what an event from the operating system's poller does to that record.
//!
//! A channel is named by a `ReactorTag`. A sender registers the tag in a queue when it
//! has sent a value; an event on the waker token then names, for each queued tag, the
//! channel whose stored waker is to be woken. An I/O source is named by a token: an
//! event on it marks it as happened and hands back the waker that awaited it, and a
//! poll by that task then finds it ready.
//!
//! The library never calls, clones or drops a waker: wakers come in by value and go
//! back out to the caller, who wakes them.
use vstd::prelude::*;
use std::collections::HashMap;
use crate::executor::Status;
use crate::utils::ring_buffer::LockFreeBoundedRingBuffer;

verus! {

broadcast use vstd::std_specs::hash::group_hash_axioms;

#[verifier::external_type_specification]
#[verifier::external_body]
pub struct ExWaker(std::task::Waker);

/// Calls `std::task::Waker::will_wake`. Its answer compares the wakers' data pointers
/// and vtables, so nothing is claimed of it.
#[verifier::external_body]
fn will_wake(stored: &std::task::Waker, other: &std::task::Waker) -> bool {
    stored.will_wake(other)
}

/// The token of the poller's own waker, whose events announce channel activity.
pub const WAKER_TOKEN: usize = 0;

/// The number of channel tags that can wait in the queue at once.
pub const REACTOR_TAG_CAPACITY: usize = 1048576;

/// The name of a channel in the reactor.
#[derive(Debug, Hash, Eq, PartialEq, Clone, Copy)]
pub struct ReactorTag(usize);

impl ReactorTag {
    /// The tag with number `id`.
    pub fn new(id: usize) -> (r: Self)
        ensures
            r.spec_id() == id,
    {
        ReactorTag(id)
    }

    /// The tag's number.
    pub closed spec fn spec_id(&self) -> usize {
        self.0
    }

    /// The tag's number.
    pub fn id(&self) -> (r: usize)
        ensures
            r == self.spec_id(),
    {
        self.0
    }
}

/// What the reactor keeps for a channel tag.
#[derive(Debug)]
pub enum TagType {
    Channel(std::task::Waker),
}

/// Whether `tag` names a channel for which a waker is stored in `tags`.
pub open spec fn has_channel(tags: Map<usize, TagType>, tag: ReactorTag) -> bool {
    tags.contains_key(tag.spec_id())
}

/// The entry of `m` at `k`, if any.
pub open spec fn entry<K, V>(m: Map<K, V>, k: K) -> Option<V> {
    if m.contains_key(k) {
        Some(m[k])
    } else {
        None
    }
}

/// A poll of `token` by a task with `waker` turns the record `before` into `after` and
/// hands back `leftover`: a happened event is taken out and the waker comes back; a
/// token not yet recorded becomes awaited by the waker; a token already awaited either
/// keeps its stored waker, and the new one comes back, or takes the new one, and the
/// stored one comes back.
pub open spec fn poll_outcome(
    before: Map<usize, Status>,
    after: Map<usize, Status>,
    token: usize,
    waker: std::task::Waker,
    leftover: Option<std::task::Waker>,
) -> bool {
    if !before.contains_key(token) {
        after == before.insert(token, Status::Awaited(waker)) && leftover is None
    } else {
        match before[token] {
            Status::Happened => after == before.remove(token) && leftover == Some(waker),
            Status::Awaited(stored) => {
                ||| (after == before && leftover == Some(waker))
                ||| (after == before.insert(token, Status::Awaited(waker)) && leftover == Some(
                    stored,
                ))
            },
        }
    }
}

/// A poll of `token` by a task with `waker`, told by `same_task` whether a stored waker
/// wakes that task, turns `before` into `after` and hands back `leftover`: a happened
/// event is taken out and the waker comes back; a token not yet recorded becomes awaited
/// by the waker; an awaited token keeps its stored waker exactly when `same_task`, and
/// the new one comes back, and otherwise takes the new one, and the stored one comes
/// back.
pub open spec fn poll_with_outcome(
    before: Map<usize, Status>,
    after: Map<usize, Status>,
    token: usize,
    waker: std::task::Waker,
    same_task: bool,
    leftover: Option<std::task::Waker>,
) -> bool {
    if !before.contains_key(token) {
        after == before.insert(token, Status::Awaited(waker)) && leftover is None
    } else {
        match before[token] {
            Status::Happened => after == before.remove(token) && leftover == Some(waker),
            Status::Awaited(stored) => if same_task {
                after == before && leftover == Some(waker)
            } else {
                after == before.insert(token, Status::Awaited(waker)) && leftover == Some(stored)
            },
        }
    }
}

/// The waker that awaited `token` in `statuses`, if one did.
pub open spec fn awaiting_waker(statuses: Map<usize, Status>, token: usize) -> Option<std::task::Waker> {
    if statuses.contains_key(token) {
        match statuses[token] {
            Status::Awaited(w) => Some(w),
            Status::Happened => None,
        }
    } else {
        None
    }
}

/// What an event asks the caller to wake.
pub enum Wakeups {
    /// The channels, in queue order, whose stored waker is to be woken by reference.
    Channels(Vec<ReactorTag>),
    /// The waker that awaited the I/O source, to be woken.
    Source(Option<std::task::Waker>),
}

/// Whether a poll of `token` finds its event ready.
pub open spec fn poll_is_ready(statuses: Map<usize, Status>, token: usize) -> bool {
    statuses.contains_key(token) && statuses[token] is Happened
}

/// The reactor's record of channels and I/O sources.
pub struct Reactor {
    reactor_tag_buffer: LockFreeBoundedRingBuffer<ReactorTag>,
    reactor_tags: HashMap<usize, TagType>,
    statuses: HashMap<usize, Status>,
}

impl Reactor {
    /// Tags of channels that have news, oldest first.
    pub closed spec fn pending_tags(&self) -> Seq<ReactorTag> {
        self.reactor_tag_buffer@
    }

    /// Stored channel wakers by tag number.
    pub closed spec fn tags(&self) -> Map<usize, TagType> {
        self.reactor_tags@
    }

    /// The record of I/O sources by token.
    pub closed spec fn statuses(&self) -> Map<usize, Status> {
        self.statuses@
    }

    /// Well-formedness: the tag queue is well formed and has its fixed room.
    pub closed spec fn wf(&self) -> bool {
        &&& self.reactor_tag_buffer.wf()
        &&& self.reactor_tag_buffer.spec_capacity() == REACTOR_TAG_CAPACITY
    }

    /// A reactor with no pending tag, no stored waker and no I/O record.
    pub fn new() -> (r: Self)
        ensures
            r.wf(),
            r.pending_tags() == Seq::<ReactorTag>::empty(),
            r.tags() == Map::<usize, TagType>::empty(),
            r.statuses() == Map::<usize, Status>::empty(),
    {
        Reactor {
            reactor_tag_buffer: LockFreeBoundedRingBuffer::new(REACTOR_TAG_CAPACITY),
            reactor_tags: HashMap::new(),
            statuses: HashMap::new(),
        }
    }

    /// The token of the poller's own waker.
    pub fn waker_token() -> (r: usize)
        ensures
            r == WAKER_TOKEN,
    {
        WAKER_TOKEN
    }

    /// Stores `waker` as the one to wake when the channel `reactor_tag` has news, and
    /// hands back what was stored for it before.
    pub fn store_waker_channel(&mut self, reactor_tag: ReactorTag, waker: std::task::Waker) -> (r: Option<TagType>)
        requires
            old(self).wf(),
        ensures
            final(self).wf(),
            final(self).tags() == old(self).tags().insert(
                reactor_tag.spec_id(),
                TagType::Channel(waker),
            ),
            r == entry(old(self).tags(), reactor_tag.spec_id()),
            final(self).pending_tags() == old(self).pending_tags(),
            final(self).statuses() == old(self).statuses(),
    {
        self.reactor_tags.insert(reactor_tag.id(), TagType::Channel(waker))
    }

    /// The waker stored for the channel `tag`, if any.
    pub fn channel_waker(&self, tag: ReactorTag) -> (r: Option<&std::task::Waker>)
        ensures
            r is None <==> !self.tags().contains_key(tag.spec_id()),
            r matches Some(w) ==> self.tags()[tag.spec_id()] == TagType::Channel(*w),
    {
        let id = tag.id();
        match self.reactor_tags.get(&id) {
            Some(TagType::Channel(w)) => Some(w),
            None => None,
        }
    }

    /// Whether the tag queue is full, so that a tag can no longer be registered.
    pub fn is_tag_buffer_full(&self) -> (r: bool)
        requires
            self.wf(),
        ensures
            r == (self.pending_tags().len() == REACTOR_TAG_CAPACITY),
    {
        proof {
            crate::utils::ring_buffer::law_len_within_capacity(self.reactor_tag_buffer);
        }
        self.reactor_tag_buffer.len() == self.reactor_tag_buffer.capacity()
    }

    /// Queues `tag` as a channel that has news.
    pub fn register_reactor_tag(&mut self, tag: ReactorTag)
        requires
            old(self).wf(),
            old(self).pending_tags().len() < REACTOR_TAG_CAPACITY,
        ensures
            final(self).wf(),
            final(self).pending_tags() == old(self).pending_tags().push(tag),
            final(self).tags() == old(self).tags(),
            final(self).statuses() == old(self).statuses(),
    {
        let _ = self.reactor_tag_buffer.push(tag);
    }

    /// Forgets the waker stored for the channel `reactor_tag`, handing it back.
    pub fn remove_tag(&mut self, reactor_tag: ReactorTag) -> (r: Option<TagType>)
        requires
            old(self).wf(),
        ensures
            final(self).wf(),
            final(self).tags() == old(self).tags().remove(reactor_tag.spec_id()),
            r == entry(old(self).tags(), reactor_tag.spec_id()),
            final(self).pending_tags() == old(self).pending_tags(),
            final(self).statuses() == old(self).statuses(),
    {
        let id = reactor_tag.id();
        self.reactor_tags.remove(&id)
    }

    /// A task polls the I/O source `token` with `waker`: asks `will_wake` whether a
    /// waker already stored for the source wakes the same task, and goes on as
    /// `poll_with` does with that answer. The answer compares pointers, so which waker is
    /// kept is stated only through `poll_with`.
    pub fn poll(&mut self, token: usize, waker: std::task::Waker) -> (r: (bool, Option<std::task::Waker>))
        requires
            old(self).wf(),
        ensures
            final(self).wf(),
            r.0 == poll_is_ready(old(self).statuses(), token),
            poll_outcome(old(self).statuses(), final(self).statuses(), token, waker, r.1),
            final(self).tags() == old(self).tags(),
            final(self).pending_tags() == old(self).pending_tags(),
    {
        let same_task = match self.statuses.get(&token) {
            Some(Status::Awaited(stored)) => will_wake(stored, &waker),
            _ => false,
        };
        self.poll_with(token, waker, same_task)
    }

    /// A task polls the I/O source `token` with `waker`, `same_task` telling whether a
    /// waker already stored for the source wakes that task. Returns true, and forgets
    /// the source, when its event has happened, handing `waker` back. Otherwise records
    /// that the task awaits the source: a stored waker of the same task is kept and
    /// `waker` comes back; any other stored waker is replaced by `waker` and comes back.
    pub fn poll_with(&mut self, token: usize, waker: std::task::Waker, same_task: bool) -> (r: (
        bool,
        Option<std::task::Waker>,
    ))
        requires
            old(self).wf(),
        ensures
            final(self).wf(),
            r.0 == poll_is_ready(old(self).statuses(), token),
            poll_with_outcome(
                old(self).statuses(),
                final(self).statuses(),
                token,
                waker,
                same_task,
                r.1,
            ),
            final(self).tags() == old(self).tags(),
            final(self).pending_tags() == old(self).pending_tags(),
    {
        let step: u8 = match self.statuses.get(&token) {
            None => 0,
            Some(Status::Awaited(_)) => {
                if same_task {
                    1
                } else {
                    0
                }
            },
            Some(Status::Happened) => 2,
        };
        if step == 0 {
            let previous = self.statuses.insert(token, Status::Awaited(waker));
            match previous {
                Some(Status::Awaited(stored)) => (false, Some(stored)),
                _ => (false, None),
            }
        } else if step == 1 {
            (false, Some(waker))
        } else {
            let _ = self.statuses.remove(&token);
            (true, Some(waker))
        }
    }

    /// An event on an I/O source: marks `token` as happened and hands back the waker
    /// that awaited it, to be woken.
    pub fn handle_io_event(&mut self, token: usize) -> (r: Option<std::task::Waker>)
        requires
            old(self).wf(),
        ensures
            final(self).wf(),
            final(self).statuses() == old(self).statuses().insert(token, Status::Happened),
            r == awaiting_waker(old(self).statuses(), token),
            final(self).tags() == old(self).tags(),
            final(self).pending_tags() == old(self).pending_tags(),
    {
        let previous = self.statuses.insert(token, Status::Happened);
        match previous {
            Some(Status::Awaited(waker)) => Some(waker),
            _ => None,
        }
    }

    /// An event on the poller's own waker: empties the tag queue and returns, in queue
    /// order, the queued tags of the channels that have a stored waker; each of those
    /// wakers is to be woken once per time its tag was queued.
    #[verifier::rlimit(30)]
    pub fn handle_waker_event(&mut self) -> (woken: Vec<ReactorTag>)
        requires
            old(self).wf(),
        ensures
            final(self).wf(),
            final(self).pending_tags() == Seq::<ReactorTag>::empty(),
            woken@ == old(self).pending_tags().filter(|t: ReactorTag| has_channel(old(self).tags(), t)),
            final(self).tags() == old(self).tags(),
            final(self).statuses() == old(self).statuses(),
    {
        let ghost pending = self.reactor_tag_buffer@;
        let ghost tags = self.reactor_tags@;
        let mut woken: Vec<ReactorTag> = Vec::new();
        let mut n: usize = 0;
        proof {
            crate::utils::ring_buffer::law_len_within_capacity(self.reactor_tag_buffer);
        }
        loop
            invariant
                self.wf(),
                n <= pending.len(),
                pending.len() <= REACTOR_TAG_CAPACITY,
                self.reactor_tag_buffer@ == pending.skip(n as int),
                self.reactor_tags@ == tags,
                self.statuses@ == old(self).statuses@,
                woken@ == pending.take(n as int).filter(|t: ReactorTag| has_channel(tags, t)),
            ensures
                self.wf(),
                self.reactor_tag_buffer@ == Seq::<ReactorTag>::empty(),
                self.reactor_tags@ == tags,
                self.statuses@ == old(self).statuses@,
                woken@ == pending.filter(|t: ReactorTag| has_channel(tags, t)),
            decreases pending.len() - n,
        {
            let popped = self.reactor_tag_buffer.pop();
            match popped {
                None => {
                    proof {
                        assert(pending.take(n as int) =~= pending);
                    }
                    break;
                },
                Some(tag) => {
                    proof {
                        assert(tag == pending[n as int]);
                        assert(n < pending.len());
                        assert(pending.take(n as int + 1).drop_last() =~= pending.take(n as int));
                        reveal(Seq::filter);
                    }
                    let id = tag.id();
                    if self.reactor_tags.contains_key(&id) {
                        woken.push(tag);
                    }
                    n = n + 1;
                    proof {
                        assert(self.reactor_tag_buffer@ =~= pending.skip(n as int));
                    }
                },
            }
        }
        woken
    }

    /// Handles one event from the poller: the waker token announces channel news,
    /// any other token an I/O event. Returns what is to be woken.
    pub fn handle_event(&mut self, token: usize) -> (r: Wakeups)
        requires
            old(self).wf(),
        ensures
            final(self).wf(),
            final(self).tags() == old(self).tags(),
            token == WAKER_TOKEN ==> {
                &&& final(self).pending_tags() == Seq::<ReactorTag>::empty()
                &&& final(self).statuses() == old(self).statuses()
                &&& r matches Wakeups::Channels(v) && v@ == old(self).pending_tags().filter(
                    |t: ReactorTag| has_channel(old(self).tags(), t),
                )
            },
            token != WAKER_TOKEN ==> {
                &&& final(self).pending_tags() == old(self).pending_tags()
                &&& final(self).statuses() == old(self).statuses().insert(token, Status::Happened)
                &&& r == Wakeups::Source(awaiting_waker(old(self).statuses(), token))
            },
    {
        if token == WAKER_TOKEN {
            Wakeups::Channels(self.handle_waker_event())
        } else {
            Wakeups::Source(self.handle_io_event(token))
        }
    }
}

/// Readiness is delivered: once an event on an I/O source (any token but the waker's)
/// has been handled, the next poll of that source finds it ready and forgets it.
pub proof fn law_event_then_poll_is_ready(
    statuses: Map<usize, Status>,
    after: Map<usize, Status>,
    token: usize,
    waker: std::task::Waker,
    leftover: Option<std::task::Waker>,
)
    requires
        token != WAKER_TOKEN,
        poll_outcome(statuses.insert(token, Status::Happened), after, token, waker, leftover),
    ensures
        poll_is_ready(statuses.insert(token, Status::Happened), token),
        after == statuses.remove(token),
        leftover == Some(waker),
{
    assert(statuses.insert(token, Status::Happened).remove(token) =~= statuses.remove(token));
}

/// A waiting task is woken: when a task's poll left it awaiting a source, the event on
/// that source hands back exactly the waker the poll stored.
pub proof fn law_poll_then_event_wakes_poller(
    before: Map<usize, Status>,
    mid: Map<usize, Status>,
    token: usize,
    waker: std::task::Waker,
    leftover: Option<std::task::Waker>,
)
    requires
        !before.contains_key(token),
        poll_outcome(before, mid, token, waker, leftover),
    ensures
        awaiting_waker(mid, token) == Some(waker),
{
}

/// A receiver is woken: when a waker is stored for a channel and its tag is queued,
/// the next event on the waker token wakes that channel's task.
pub proof fn law_registered_channel_is_woken(pending: Seq<ReactorTag>, tags: Map<usize, TagType>, tag: ReactorTag)
    requires
        tags.contains_key(tag.spec_id()),
    ensures
        pending.push(tag).filter(|t: ReactorTag| has_channel(tags, t)).contains(tag),
{
    reveal(Seq::filter);
    assert(pending.push(tag).drop_last() =~= pending);
    let woken = pending.push(tag).filter(|t: ReactorTag| has_channel(tags, t));
    assert(woken == pending.filter(|t: ReactorTag| has_channel(tags, t)).push(tag));
    assert(woken[woken.len() - 1] == tag);
}

/// A channel without a stored waker wakes nobody, however often its tag was queued.
pub proof fn law_unknown_channel_wakes_nobody(pending: Seq<ReactorTag>, tags: Map<usize, TagType>, tag: ReactorTag)
    requires
        !tags.contains_key(tag.spec_id()),
    ensures
        !pending.filter(|t: ReactorTag| has_channel(tags, t)).contains(tag),
{
    let pred = |t: ReactorTag| has_channel(tags, t);
    if pending.filter(pred).contains(tag) {
        let i = choose|i: int| 0 <= i < pending.filter(pred).len() && pending.filter(pred)[i] == tag;
        pending.lemma_filter_pred(pred, i);
    }
}

/// The polling task is the one recorded: after a poll that found no event, the source
/// is awaited by the polling task's own waker, unless a waker of that same task was
/// already stored and is kept.
pub proof fn law_poll_records_poller(
    before: Map<usize, Status>,
    after: Map<usize, Status>,
    token: usize,
    waker: std::task::Waker,
    same_task: bool,
    leftover: Option<std::task::Waker>,
)
    requires
        !poll_is_ready(before, token),
        poll_with_outcome(before, after, token, waker, same_task, leftover),
    ensures
        after[token] == Status::Awaited(waker) || (same_task && after == before
            && before[token] is Awaited),
{
}

/// A poll never makes a source ready by itself: after a poll that found no event, a
/// second poll before any event finds none either.
pub proof fn law_poll_without_event_stays_pending(
    before: Map<usize, Status>,
    mid: Map<usize, Status>,
    token: usize,
    waker: std::task::Waker,
    leftover: Option<std::task::Waker>,
)
    requires
        !poll_is_ready(before, token),
        poll_outcome(before, mid, token, waker, leftover),
    ensures
        !poll_is_ready(mid, token),
        mid.contains_key(token),
{
}

} // verus!
