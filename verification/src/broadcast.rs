//! Fan-out of events to any number of subscribers.
//!
//! A `Broadcaster` hands every event that is sent to each subscriber that is
//! live at that moment, in the order of sending. A subscriber that joins later
//! sees only what is sent after it joined. Sending never waits for a
//! subscriber and never fails; with nobody listening the event is dropped.
//!
//! The model of a broadcaster is a map from each live subscriber to the
//! events that this subscriber has not received yet, oldest first. Inside,
//! the broadcaster keeps one log of events and, for each subscriber, the
//! position in the log that it has read up to.

use vstd::prelude::*;

verus! {

/// The handle of one subscriber of a `Broadcaster`.
#[derive(Debug, Clone, Copy, PartialEq, Eq, Hash, Structural)]
pub struct SubscriberId(pub u64);

/// The queues of `queues` after `events` have been sent, in that order: every
/// subscriber has them behind what it had not received before.
pub open spec fn published<E>(queues: Map<SubscriberId, Seq<E>>, events: Seq<E>) -> Map<
    SubscriberId,
    Seq<E>,
> {
    Map::new(|id: SubscriberId| queues.contains_key(id), |id: SubscriberId| queues[id] + events)
}

/// The views of `events`, in the same order.
pub open spec fn views_of<T: View>(events: Seq<T>) -> Seq<T::V> {
    events.map_values(|e: T| e@)
}

/// One subscriber: its handle, and how far into the log it has read.
struct Subscriber {
    id: SubscriberId,
    cursor: usize,
}

/// Whether some subscriber of `subscribers` has the handle `id`.
spec fn listens(subscribers: Seq<Subscriber>, id: SubscriberId) -> bool {
    exists|i: int| 0 <= i < subscribers.len() && (#[trigger] subscribers[i]).id == id
}

/// The position in `subscribers` of the subscriber with the handle `id`.
spec fn slot_of(subscribers: Seq<Subscriber>, id: SubscriberId) -> int {
    choose|i: int| 0 <= i < subscribers.len() && (#[trigger] subscribers[i]).id == id
}

/// Whether the subscribers of `subscribers` have pairwise different handles.
spec fn distinct_handles(subscribers: Seq<Subscriber>) -> bool {
    forall|i: int, j: int|
        0 <= i < j < subscribers.len() ==> (#[trigger] subscribers[i]).id != (
        #[trigger] subscribers[j]).id
}

/// The part of `events` that a subscriber at `cursor` has not read.
spec fn unread<E>(events: Seq<E>, cursor: usize) -> Seq<E> {
    events.subrange(cursor as int, events.len() as int)
}

/// The least position that any of `subscribers` has read up to: what lies
/// before it in the log has been received by all. Zero where there is no
/// subscriber.
spec fn least_cursor(subscribers: Seq<Subscriber>) -> int
    decreases subscribers.len(),
{
    if subscribers.len() == 0 {
        0
    } else if subscribers.len() == 1 {
        subscribers[0].cursor as int
    } else {
        let rest = least_cursor(subscribers.drop_last());
        let last = subscribers.last().cursor as int;
        if last < rest {
            last
        } else {
            rest
        }
    }
}

/// How many events are dropped from the front of a log of `len` events.
///
/// With no subscriber nobody will read the log, and all of it goes. Else
/// what all subscribers have received goes, once that is at least half of the
/// log; before that nothing goes, so that the cost of moving the rest is paid
/// for by the events dropped.
spec fn surplus(len: int, subscribers: Seq<Subscriber>) -> int {
    let least = least_cursor(subscribers);
    if subscribers.len() == 0 {
        len
    } else if least == 0 || least < len - least {
        0
    } else {
        least
    }
}

/// No subscriber has read less than the least position.
proof fn lemma_least_cursor_is_least(subscribers: Seq<Subscriber>, k: int)
    requires
        0 <= k < subscribers.len(),
    ensures
        least_cursor(subscribers) <= subscribers[k].cursor,
    decreases subscribers.len(),
{
    if subscribers.len() > 1 && k < subscribers.len() - 1 {
        lemma_least_cursor_is_least(subscribers.drop_last(), k);
    }
}

/// The queues that a log and its subscribers stand for.
spec fn queues_of<E>(events: Seq<E>, subscribers: Seq<Subscriber>) -> Map<SubscriberId, Seq<E>> {
    Map::new(
        |id: SubscriberId| listens(subscribers, id),
        |id: SubscriberId| unread(events, subscribers[slot_of(subscribers, id)].cursor),
    )
}

/// Among subscribers with pairwise different handles, a handle is found at
/// the position of the subscriber that has it.
proof fn lemma_slot_of_position(subscribers: Seq<Subscriber>, i: int)
    requires
        distinct_handles(subscribers),
        0 <= i < subscribers.len(),
    ensures
        listens(subscribers, subscribers[i].id),
        slot_of(subscribers, subscribers[i].id) == i,
{
    let j = slot_of(subscribers, subscribers[i].id);
    assert(0 <= j < subscribers.len() && subscribers[j].id == subscribers[i].id);
    if j < i {
        assert(subscribers[j].id != subscribers[i].id);
    } else if i < j {
        assert(subscribers[i].id != subscribers[j].id);
    }
}

/// Delivers events of type `T` to every live subscriber.
pub struct Broadcaster<T: View> {
    log: Vec<T>,
    subscribers: Vec<Subscriber>,
    next_handle: u64,
}

impl<T: View> View for Broadcaster<T> {
    type V = Map<SubscriberId, Seq<T::V>>;

    closed spec fn view(&self) -> Map<SubscriberId, Seq<T::V>> {
        queues_of(self.events(), self.subscribers@)
    }
}

impl<T: View> Broadcaster<T> {
    /// The views of the events in the log.
    spec fn events(&self) -> Seq<T::V> {
        views_of(self.log@)
    }

    /// The broadcaster's invariant.
    pub closed spec fn wf(&self) -> bool {
        &&& distinct_handles(self.subscribers@)
        &&& forall|i: int|
            0 <= i < self.subscribers@.len() ==> (#[trigger] self.subscribers@[i]).id.0
                < self.next_handle
        &&& forall|i: int|
            0 <= i < self.subscribers@.len() ==> (#[trigger] self.subscribers@[i]).cursor
                <= self.log@.len()
    }

    /// The number of handles given out so far.
    pub closed spec fn issued(&self) -> nat {
        self.next_handle as nat
    }

    /// Whether every handle has been given out.
    pub open spec fn is_exhausted(&self) -> bool {
        self.issued() >= u64::MAX
    }

    /// Every live subscriber holds a handle that `subscribe` has given out.
    pub proof fn lemma_live_handles_issued(&self, id: SubscriberId)
        requires
            self.wf(),
            self@.contains_key(id),
        ensures
            (id.0 as nat) < self.issued(),
    {
        let i = slot_of(self.subscribers@, id);
        assert(self.subscribers@[i].id == id);
    }

    /// A broadcaster without subscribers.
    pub fn new() -> (broadcaster: Broadcaster<T>)
        ensures
            broadcaster.wf(),
            broadcaster.issued() == 0,
            broadcaster@ == Map::<SubscriberId, Seq<T::V>>::empty(),
    {
        let broadcaster = Broadcaster { log: Vec::new(), subscribers: Vec::new(), next_handle: 0 };
        assert(broadcaster@ =~= Map::<SubscriberId, Seq<T::V>>::empty());
        broadcaster
    }

    /// Whether every handle has been given out, so that `subscribe` can no
    /// longer be called.
    pub fn exhausted(&self) -> (done: bool)
        ensures
            done == self.is_exhausted(),
    {
        self.next_handle == u64::MAX
    }

    /// The position of the subscriber with the handle `id`, if it is live.
    fn slot(&self, id: SubscriberId) -> (found: Option<usize>)
        requires
            self.wf(),
        ensures
            match found {
                Some(i) => {
                    &&& i < self.subscribers@.len()
                    &&& self.subscribers@[i as int].id == id
                    &&& i == slot_of(self.subscribers@, id)
                    &&& self@.contains_key(id)
                    &&& self@[id] == unread(self.events(), self.subscribers@[i as int].cursor)
                },
                None => !self@.contains_key(id),
            },
    {
        let mut i: usize = 0;
        while i < self.subscribers.len()
            invariant
                i <= self.subscribers.len(),
                self.wf(),
                forall|k: int| 0 <= k < i ==> (#[trigger] self.subscribers@[k]).id != id,
            decreases self.subscribers.len() - i,
        {
            if self.subscribers[i].id == id {
                proof {
                    lemma_slot_of_position(self.subscribers@, i as int);
                }
                return Some(i);
            }
            i = i + 1;
        }
        None
    }

    /// Adds a subscriber and returns its handle.
    ///
    /// The new subscriber has nothing to receive yet: it will see the events
    /// sent from now on, and none of the earlier ones. Handles are given out
    /// in increasing order and never twice.
    pub fn subscribe(&mut self) -> (id: SubscriberId)
        requires
            old(self).wf(),
            !old(self).is_exhausted(),
        ensures
            final(self).wf(),
            id.0 as nat == old(self).issued(),
            final(self).issued() == old(self).issued() + 1,
            !old(self)@.contains_key(id),
            final(self)@ == old(self)@.insert(id, Seq::<T::V>::empty()),
    {
        let id = SubscriberId(self.next_handle);
        self.next_handle = self.next_handle + 1;
        self.subscribers.push(Subscriber { id, cursor: self.log.len() });
        proof {
            let before = old(self).subscribers@;
            let after = self.subscribers@;
            let last = before.len() as int;
            assert(after =~= before.push(Subscriber { id, cursor: self.log.len() }));
            assert forall|i: int| 0 <= i < before.len() implies (#[trigger] before[i]).id
                != id by {}
            assert(!listens(before, id));
            assert forall|i: int, j: int| 0 <= i < j < after.len() implies (#[trigger] after[i]).id
                != (#[trigger] after[j]).id by {
                if j < last {
                    assert(before[i].id != before[j].id);
                } else {
                    assert(before[i].id != id);
                }
            }
            lemma_slot_of_position(after, last);
            assert forall|other: SubscriberId|
                self@.contains_key(other) <==> #[trigger] old(self)@.insert(
                    id,
                    Seq::<T::V>::empty(),
                ).contains_key(other) by {
                if listens(after, other) && other != id {
                    let k = slot_of(after, other);
                    assert(before[k].id == other);
                }
                if listens(before, other) {
                    let k = slot_of(before, other);
                    assert(after[k].id == other);
                }
            }
            assert forall|other: SubscriberId| self@.contains_key(other) implies #[trigger] self@[other]
                == old(self)@.insert(id, Seq::<T::V>::empty())[other] by {
                if other == id {
                    assert(self@[id] =~= Seq::<T::V>::empty());
                } else {
                    let k = slot_of(before, other);
                    assert(before[k].id == other);
                    lemma_slot_of_position(before, k);
                    lemma_slot_of_position(after, k);
                }
            }
            assert(self@ =~= old(self)@.insert(id, Seq::<T::V>::empty()));
        }
        id
    }

    /// Removes the subscriber `id` and says whether it was live.
    ///
    /// What the subscriber had not received is dropped with it; the other
    /// subscribers are not affected.
    pub fn unsubscribe(&mut self, id: SubscriberId) -> (was_live: bool)
        requires
            old(self).wf(),
        ensures
            final(self).wf(),
            final(self).issued() == old(self).issued(),
            was_live == old(self)@.contains_key(id),
            final(self)@ == old(self)@.remove(id),
    {
        match self.slot(id) {
            Some(i) => {
                self.subscribers.remove(i);
                proof {
                    let before = old(self).subscribers@;
                    let after = self.subscribers@;
                    assert(after =~= before.remove(i as int));
                    assert forall|a: int| 0 <= a < after.len() implies (#[trigger] after[a])
                        == before[if a < i { a } else { a + 1 }] by {}
                    assert forall|a: int, b: int| 0 <= a < b < after.len() implies (
                    #[trigger] after[a]).id != (#[trigger] after[b]).id by {
                        let a0 = if a < i { a } else { a + 1 };
                        let b0 = if b < i { b } else { b + 1 };
                        assert(after[a] == before[a0] && after[b] == before[b0]);
                        assert(before[a0].id != before[b0].id);
                    }
                    assert forall|a: int| 0 <= a < after.len() implies (#[trigger] after[a]).id
                        != id by {
                        let a0 = if a < i { a } else { a + 1 };
                        assert(after[a] == before[a0]);
                        if a0 < i {
                            assert(before[a0].id != before[i as int].id);
                        } else {
                            assert(before[i as int].id != before[a0].id);
                        }
                    }
                    assert(!listens(after, id));
                    assert forall|other: SubscriberId|
                        self@.contains_key(other) <==> #[trigger] old(self)@.remove(
                            id,
                        ).contains_key(other) by {
                        if listens(after, other) {
                            let k = slot_of(after, other);
                            let k0 = if k < i { k } else { k + 1 };
                            assert(after[k] == before[k0]);
                            assert(before[k0].id == other);
                        }
                        if listens(before, other) && other != id {
                            let k0 = slot_of(before, other);
                            let k = if k0 < i { k0 } else { k0 - 1 };
                            assert(after[k] == before[k0]);
                            assert(after[k].id == other);
                        }
                    }
                    assert forall|other: SubscriberId| self@.contains_key(other) implies
                        #[trigger] self@[other] == old(self)@.remove(id)[other] by {
                        let k = slot_of(after, other);
                        let k0 = if k < i { k } else { k + 1 };
                        assert(after[k] == before[k0]);
                        lemma_slot_of_position(after, k);
                        lemma_slot_of_position(before, k0);
                    }
                    assert(self@ =~= old(self)@.remove(id));
                }
                true
            },
            None => {
                assert(self@ =~= old(self)@.remove(id));
                false
            },
        }
    }

    /// The number of live subscribers.
    pub fn subscriber_count(&self) -> (count: usize)
        requires
            self.wf(),
        ensures
            self@.dom().finite(),
            count == self@.dom().len(),
    {
        proof {
            let handles = self.subscribers@.map_values(|s: Subscriber| s.id);
            assert forall|i: int, j: int|
                0 <= i < handles.len() && 0 <= j < handles.len() && i != j implies handles[i]
                != handles[j] by {
                if i < j {
                    assert(self.subscribers@[i].id != self.subscribers@[j].id);
                } else {
                    assert(self.subscribers@[j].id != self.subscribers@[i].id);
                }
            }
            handles.unique_seq_to_set();
            assert forall|id: SubscriberId| handles.to_set().contains(id) <==> self@.dom().contains(
                id,
            ) by {
                if handles.contains(id) {
                    let k = choose|k: int| 0 <= k < handles.len() && handles[k] == id;
                    assert(self.subscribers@[k].id == id);
                }
                if listens(self.subscribers@, id) {
                    let k = slot_of(self.subscribers@, id);
                    assert(handles[k] == id);
                }
            }
            assert(handles.to_set() =~= self@.dom());
        }
        self.subscribers.len()
    }

    /// The number of events that the subscriber `id` has not received, or
    /// `None` if it is not live.
    pub fn pending(&self, id: SubscriberId) -> (count: Option<usize>)
        requires
            self.wf(),
        ensures
            match count {
                Some(n) => self@.contains_key(id) && n == self@[id].len(),
                None => !self@.contains_key(id),
            },
    {
        match self.slot(id) {
            Some(i) => Some(self.log.len() - self.subscribers[i].cursor),
            None => None,
        }
    }

    /// Hands the subscriber `id` the oldest event that it has not received.
    ///
    /// Returns `None`, and changes nothing, if the subscriber is not live or
    /// has received everything sent so far.
    pub fn recv(&mut self, id: SubscriberId) -> (event: Option<&T>)
        requires
            old(self).wf(),
        ensures
            final(self).wf(),
            final(self).issued() == old(self).issued(),
            match event {
                Some(e) => {
                    &&& old(self)@.contains_key(id)
                    &&& old(self)@[id].len() > 0
                    &&& e@ == old(self)@[id][0]
                    &&& final(self)@ == old(self)@.insert(id, old(self)@[id].drop_first())
                },
                None => {
                    &&& !old(self)@.contains_key(id) || old(self)@[id].len() == 0
                    &&& final(self)@ == old(self)@
                },
            },
    {
        match self.slot(id) {
            Some(i) => {
                let cursor = self.subscribers[i].cursor;
                if cursor < self.log.len() {
                    self.subscribers[i].cursor = cursor + 1;
                    proof {
                        let before = old(self).subscribers@;
                        let after = self.subscribers@;
                        assert(after =~= before.update(
                            i as int,
                            Subscriber { id, cursor: (cursor + 1) as usize },
                        ));
                        assert forall|a: int, b: int| 0 <= a < b < after.len() implies (
                        #[trigger] after[a]).id != (#[trigger] after[b]).id by {
                            assert(before[a].id != before[b].id);
                        }
                        assert forall|other: SubscriberId|
                            listens(after, other) <==> listens(before, other) by {
                            if listens(after, other) {
                                let k = slot_of(after, other);
                                assert(before[k].id == other);
                            }
                            if listens(before, other) {
                                let k = slot_of(before, other);
                                assert(after[k].id == other);
                            }
                        }
                        assert forall|other: SubscriberId| self@.contains_key(other) implies
                            #[trigger] self@[other] == old(self)@.insert(
                            id,
                            old(self)@[id].drop_first(),
                        )[other] by {
                            let k = slot_of(before, other);
                            assert(before[k].id == other);
                            lemma_slot_of_position(before, k);
                            lemma_slot_of_position(after, k);
                            if other == id {
                                assert(k == i);
                                assert(unread(self.events(), (cursor + 1) as usize) =~= unread(
                                    self.events(),
                                    cursor,
                                ).drop_first());
                            }
                        }
                        assert(self@ =~= old(self)@.insert(id, old(self)@[id].drop_first()));
                    }
                    Some(&self.log[cursor])
                } else {
                    None
                }
            },
            None => None,
        }
    }

    /// Drops from the log what no subscriber will read again, and moves the
    /// subscribers' positions back by as much.
    ///
    /// How much is dropped is said by `surplus`. This changes how the
    /// broadcaster stores its queues, not what the queues hold.
    fn discard_received(&mut self)
        requires
            old(self).wf(),
        ensures
            final(self).wf(),
            final(self).issued() == old(self).issued(),
            final(self)@ == old(self)@,
            final(self).log@ == old(self).log@.skip(
                surplus(old(self).log@.len() as int, old(self).subscribers@),
            ),
            final(self).subscribers@.len() == old(self).subscribers@.len(),
            forall|k: int|
                0 <= k < old(self).subscribers@.len() ==> (#[trigger] final(self).subscribers@[k]).id
                    == old(self).subscribers@[k].id,
            forall|k: int|
                0 <= k < old(self).subscribers@.len() ==> (
                #[trigger] final(self).subscribers@[k]).cursor == old(self).subscribers@[k].cursor
                    - surplus(old(self).log@.len() as int, old(self).subscribers@),
    {
        let ghost before = old(self).subscribers@;
        let ghost logged = old(self).log@;
        let count = self.subscribers.len();
        if count == 0 {
            self.log.clear();
            proof {
                assert(self@ =~= old(self)@);
                assert(self.log@ =~= logged.skip(logged.len() as int));
            }
            return ;
        }
        let mut least: usize = self.subscribers[0].cursor;
        let mut i: usize = 1;
        proof {
            assert(before.take(1)[0] == before[0]);
        }
        while i < count
            invariant
                1 <= i <= count,
                count == self.subscribers@.len(),
                self.subscribers@ == before,
                least == least_cursor(before.take(i as int)),
            decreases count - i,
        {
            proof {
                assert(before.take(i + 1).drop_last() =~= before.take(i as int));
                assert(before.take(i + 1).last() == before[i as int]);
            }
            if self.subscribers[i].cursor < least {
                least = self.subscribers[i].cursor;
            }
            i = i + 1;
        }
        proof {
            assert(before.take(count as int) =~= before);
            assert forall|k: int| 0 <= k < count implies least <= (#[trigger] before[k]).cursor
                <= logged.len() by {
                lemma_least_cursor_is_least(before, k);
            }
            assert(least <= before[0].cursor);
        }
        if least == 0 || least < self.log.len() - least {
            proof {
                assert(self.log@ =~= logged.skip(0));
            }
            return ;
        }
        let kept = self.log.split_off(least);
        self.log = kept;
        let mut j: usize = 0;
        while j < count
            invariant
                j <= count,
                count == before.len(),
                self.subscribers@.len() == count,
                self.next_handle == old(self).next_handle,
                self.log@ == logged.subrange(least as int, logged.len() as int),
                least <= logged.len(),
                forall|k: int|
                    0 <= k < count ==> least <= (#[trigger] before[k]).cursor <= logged.len(),
                forall|k: int| 0 <= k < count ==> (#[trigger] self.subscribers@[k]).id == before[k].id,
                forall|k: int|
                    0 <= k < j ==> (#[trigger] self.subscribers@[k]).cursor == before[k].cursor
                        - least,
                forall|k: int|
                    j <= k < count ==> (#[trigger] self.subscribers@[k]).cursor
                        == before[k].cursor,
            decreases count - j,
        {
            let cursor = self.subscribers[j].cursor;
            self.subscribers[j].cursor = cursor - least;
            j = j + 1;
        }
        proof {
            let after = self.subscribers@;
            assert forall|a: int, b: int| 0 <= a < b < after.len() implies (#[trigger] after[a]).id
                != (#[trigger] after[b]).id by {
                assert(before[a].id != before[b].id);
            }
            assert forall|k: int| 0 <= k < after.len() implies (#[trigger] after[k]).id.0
                < self.next_handle by {
                assert(before[k].id.0 < old(self).next_handle);
            }
            assert forall|other: SubscriberId| listens(after, other) <==> listens(
                before,
                other,
            ) by {
                if listens(after, other) {
                    let k = slot_of(after, other);
                    assert(before[k].id == other);
                }
                if listens(before, other) {
                    let k = slot_of(before, other);
                    assert(after[k].id == other);
                }
            }
            assert forall|other: SubscriberId| self@.contains_key(other) implies #[trigger] self@[other]
                == old(self)@[other] by {
                let k = slot_of(before, other);
                assert(before[k].id == other);
                lemma_slot_of_position(before, k);
                lemma_slot_of_position(after, k);
                assert(unread(self.events(), after[k].cursor) =~= unread(
                    old(self).events(),
                    before[k].cursor,
                ));
            }
            assert(self@ =~= old(self)@);
        }
    }

    /// Sends `event` to every live subscriber.
    ///
    /// The event goes to the end of each subscriber's queue. With no
    /// subscriber the event is dropped, which counts as success.
    pub fn send(&mut self, event: T)
        requires
            old(self).wf(),
        ensures
            final(self).wf(),
            final(self).issued() == old(self).issued(),
            final(self)@ == published(old(self)@, seq![event@]),
    {
        self.discard_received();
        if self.subscribers.len() == 0 {
            assert(self@ =~= published(old(self)@, seq![event@]));
            return ;
        }
        let ghost trimmed = self.events();
        self.log.push(event);
        proof {
            let subscribers = self.subscribers@;
            assert(self.events() =~= trimmed.push(event@));
            assert forall|other: SubscriberId| self@.contains_key(other) implies #[trigger] self@[other]
                == published(old(self)@, seq![event@])[other] by {
                let k = slot_of(subscribers, other);
                assert(unread(self.events(), subscribers[k].cursor) =~= unread(
                    trimmed,
                    subscribers[k].cursor,
                ) + seq![event@]);
            }
            assert(self@ =~= published(old(self)@, seq![event@]));
        }
    }

    /// Sends `events` to every live subscriber, in their order.
    ///
    /// This leaves the queues as sending the events one by one does.
    pub fn send_all(&mut self, events: Vec<T>)
        requires
            old(self).wf(),
        ensures
            final(self).wf(),
            final(self).issued() == old(self).issued(),
            final(self)@ == published(old(self)@, views_of(events@)),
    {
        let mut events = events;
        self.discard_received();
        if self.subscribers.len() == 0 {
            assert(self@ =~= published(old(self)@, views_of(events@)));
            return ;
        }
        let ghost trimmed = self.events();
        let ghost sent = views_of(events@);
        self.log.append(&mut events);
        proof {
            let subscribers = self.subscribers@;
            assert(self.events() =~= trimmed + sent);
            assert forall|other: SubscriberId| self@.contains_key(other) implies #[trigger] self@[other]
                == published(old(self)@, sent)[other] by {
                let k = slot_of(subscribers, other);
                assert(unread(self.events(), subscribers[k].cursor) =~= unread(
                    trimmed,
                    subscribers[k].cursor,
                ) + sent);
            }
            assert(self@ =~= published(old(self)@, sent));
        }
    }
}

/// Events reach a subscriber in the order in which they were sent: sending
/// `first` and then `second` leaves every queue as sending the two in one
/// piece does, and each queue holds what it held before, then `first`, then
/// `second`.
pub proof fn lemma_published_in_order<E>(
    queues: Map<SubscriberId, Seq<E>>,
    first: Seq<E>,
    second: Seq<E>,
)
    ensures
        published(published(queues, first), second) == published(queues, first + second),
        forall|id: SubscriberId|
            queues.contains_key(id) ==> #[trigger] published(published(queues, first), second)[id]
                == queues[id] + first + second,
        published(queues, first).dom() == queues.dom(),
{
    assert forall|id: SubscriberId| queues.contains_key(id) implies #[trigger] published(
        published(queues, first),
        second,
    )[id] == queues[id] + first + second by {}
    assert forall|id: SubscriberId| queues.contains_key(id) implies #[trigger] published(
        published(queues, first),
        second,
    )[id] == published(queues, first + second)[id] by {
        assert((queues[id] + first) + second =~= queues[id] + (first + second));
    }
    assert(published(published(queues, first), second) =~= published(queues, first + second));
    assert(published(queues, first).dom() =~= queues.dom());
}

/// A subscriber that joins after `earlier` was sent never sees any of it: its
/// queue holds exactly what is sent after it joined.
pub proof fn lemma_late_subscriber<E>(
    queues: Map<SubscriberId, Seq<E>>,
    id: SubscriberId,
    earlier: Seq<E>,
    later: Seq<E>,
)
    requires
        !queues.contains_key(id),
    ensures
        !published(queues, earlier).contains_key(id),
        published(published(queues, earlier).insert(id, Seq::<E>::empty()), later)[id] == later,
{
    assert(Seq::<E>::empty() + later =~= later);
}

} // verus!
