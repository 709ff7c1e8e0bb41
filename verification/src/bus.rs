//! The broadcast bus: a bounded multi-consumer fan-out channel.
//!
//! One publisher appends wire messages; each subscriber has a cursor into
//! the publish history. Publishing never blocks: when the window is full the
//! oldest message is dropped, and a subscriber whose cursor has fallen
//! behind the window learns on its next receive how many messages it missed
//! and continues from the oldest retained one — gaps, never reorderings.

use vstd::prelude::*;

verus! {

/// One subscriber's receive cursor.
pub struct Subscriber {
    /// Index into the publish history of the next message to deliver.
    pub cursor: u64,
    /// Cleared when the subscriber disconnects or is evicted.
    pub alive: bool,
}

/// What one receive call yields.
pub enum RecvResult {
    /// Nothing is pending.
    Empty,
    /// The subscriber fell out of the window; this many messages were
    /// skipped and the cursor moved to the oldest retained message.
    Lagged(u64),
    /// The next pending message, in publish order.
    Msg(Vec<u8>),
}

/// The retained messages, as byte sequences.
pub open spec fn msgs_of(w: Seq<Vec<u8>>) -> Seq<Seq<u8>> {
    w.map_values(|m: Vec<u8>| m@)
}

/// How many subscribers are alive.
pub open spec fn alive_count(subs: Seq<Subscriber>) -> int
    decreases subs.len(),
{
    if subs.len() == 0 {
        0
    } else {
        alive_count(subs.drop_last()) + (if subs.last().alive {
            1int
        } else {
            0int
        })
    }
}

/// What one publish does to the retained window and its base index: the
/// message is appended, and when the window is at capacity the oldest
/// retained message is dropped.
pub open spec fn publish_one(contents: Seq<Seq<u8>>, base: int, cap: int, m: Seq<u8>) -> (
    Seq<Seq<u8>>,
    int,
) {
    if contents.len() < cap {
        (contents.push(m), base)
    } else {
        (contents.skip(1).push(m), base + 1)
    }
}

/// A whole sequence of publishes, in order.
pub open spec fn publish_seq(contents: Seq<Seq<u8>>, base: int, cap: int, msgs: Seq<Seq<u8>>) -> (
    Seq<Seq<u8>>,
    int,
)
    decreases msgs.len(),
{
    if msgs.len() == 0 {
        (contents, base)
    } else {
        let next = publish_one(contents, base, cap, msgs[0]);
        publish_seq(next.0, next.1, cap, msgs.skip(1))
    }
}

/// The bounded fan-out channel.
pub struct BroadcastBus {
    capacity: usize,
    base: u64,
    window: Vec<Vec<u8>>,
    subs: Vec<Subscriber>,
}

impl BroadcastBus {
    /// The number of messages ever published.
    pub closed spec fn published(&self) -> int {
        self.base + self.window@.len()
    }

    /// The retained messages, oldest first.
    pub closed spec fn contents(&self) -> Seq<Seq<u8>> {
        msgs_of(self.window@)
    }

    /// The publish-history index of the oldest retained message.
    pub closed spec fn base_index(&self) -> int {
        self.base as int
    }

    /// The fixed capacity.
    pub closed spec fn cap(&self) -> int {
        self.capacity as int
    }

    /// The subscribers, by identifier.
    pub closed spec fn subscribers(&self) -> Seq<Subscriber> {
        self.subs@
    }

    /// Well-formedness: the window respects the capacity and every cursor
    /// lies within the publish history.
    pub closed spec fn wf(&self) -> bool {
        &&& self.capacity >= 1
        &&& self.window@.len() <= self.capacity
        &&& self.published() <= u64::MAX
        &&& forall|k: int|
            0 <= k < self.subs@.len() ==> (#[trigger] self.subs@[k]).cursor <= self.published()
    }

    /// The retained window spans the publish history from the base index to
    /// the head.
    pub proof fn lemma_window_span(&self)
        ensures
            self.contents().len() == self.published() - self.base_index(),
    {
    }

    /// What well-formedness gives a caller: the window respects the
    /// capacity and every cursor lies within the publish history.
    pub proof fn lemma_wf_facts(&self)
        requires
            self.wf(),
        ensures
            self.cap() >= 1,
            self.contents().len() <= self.cap(),
            0 <= self.base_index(),
            self.published() <= u64::MAX,
            forall|k: int|
                0 <= k < self.subscribers().len() ==> (#[trigger] self.subscribers()[k]).cursor
                    <= self.published(),
    {
    }

    /// A fresh bus with the given capacity and no subscribers.
    pub fn new(capacity: usize) -> (bus: BroadcastBus)
        requires
            capacity >= 1,
        ensures
            bus.wf(),
            bus.cap() == capacity,
            bus.base_index() == 0,
            bus.contents() =~= Seq::<Seq<u8>>::empty(),
            bus.subscribers() =~= Seq::<Subscriber>::empty(),
    {
        BroadcastBus { capacity, base: 0, window: Vec::new(), subs: Vec::new() }
    }

    /// Publishes one message. Never blocks: at capacity the oldest retained
    /// message is dropped, moving the base up by one. Cursors are untouched,
    /// so every subscriber's backlog grows by one.
    pub fn publish(&mut self, msg: Vec<u8>)
        requires
            old(self).wf(),
            old(self).published() < u64::MAX,
        ensures
            final(self).wf(),
            final(self).cap() == old(self).cap(),
            final(self).subscribers() == old(self).subscribers(),
            final(self).published() == old(self).published() + 1,
            (final(self).contents(), final(self).base_index()) == publish_one(
                old(self).contents(),
                old(self).base_index(),
                old(self).cap(),
                msg@,
            ),
    {
        if self.window.len() >= self.capacity {
            let _dropped = self.window.remove(0);
            self.base = self.base + 1;
            proof {
                assert(msgs_of(self.window@) =~= msgs_of(old(self).window@).skip(1));
            }
        }
        self.window.push(msg);
        proof {
            assert(self.window@.drop_last().map_values(|m: Vec<u8>| m@) =~= msgs_of(
                self.window@,
            ).drop_last());
            assert(msgs_of(self.window@) =~= msgs_of(self.window@.drop_last()).push(msg@));
        }
    }

    /// Adds a subscriber positioned at the current head: it will see exactly
    /// the messages published from now on. Returns its identifier.
    pub fn subscribe(&mut self) -> (id: usize)
        requires
            old(self).wf(),
        ensures
            final(self).wf(),
            id == old(self).subscribers().len(),
            final(self).subscribers() =~= old(self).subscribers().push(
                Subscriber { cursor: old(self).published() as u64, alive: true },
            ),
            final(self).contents() == old(self).contents(),
            final(self).base_index() == old(self).base_index(),
            final(self).cap() == old(self).cap(),
            final(self).published() == old(self).published(),
    {
        let id = self.subs.len();
        let cursor: u64 = self.base + (self.window.len() as u64);
        self.subs.push(Subscriber { cursor, alive: true });
        id
    }

    /// Marks a subscriber gone; its identifier stays allocated.
    pub fn unsubscribe(&mut self, id: usize)
        requires
            old(self).wf(),
            id < old(self).subscribers().len(),
        ensures
            final(self).wf(),
            final(self).subscribers() =~= old(self).subscribers().update(
                id as int,
                Subscriber { cursor: old(self).subscribers()[id as int].cursor, alive: false },
            ),
            final(self).contents() == old(self).contents(),
            final(self).base_index() == old(self).base_index(),
            final(self).cap() == old(self).cap(),
            final(self).published() == old(self).published(),
    {
        let cursor = self.subs[id].cursor;
        self.subs.set(id, Subscriber { cursor, alive: false });
    }

    /// How many messages a subscriber has yet to receive, the skipped ones
    /// included.
    pub fn backlog(&self, id: usize) -> (r: u64)
        requires
            self.wf(),
            id < self.subscribers().len(),
        ensures
            r == self.published() - self.subscribers()[id as int].cursor,
    {
        self.base + (self.window.len() as u64) - self.subs[id].cursor
    }

    /// How many subscribers are alive.
    pub fn subscriber_count(&self) -> (r: usize)
        ensures
            r == alive_count(self.subscribers()),
    {
        let mut count: usize = 0;
        let mut k: usize = 0;
        while k < self.subs.len()
            invariant
                k <= self.subs@.len(),
                count == alive_count(self.subs@.take(k as int)),
                count <= k,
            decreases self.subs@.len() - k,
        {
            proof {
                assert(self.subs@.take(k + 1).drop_last() =~= self.subs@.take(k as int));
                assert(self.subs@.take(k + 1).last() == self.subs@[k as int]);
            }
            if self.subs[k].alive {
                count = count + 1;
            }
            k = k + 1;
        }
        proof {
            assert(self.subs@.take(self.subs@.len() as int) =~= self.subs@);
        }
        count
    }

    /// Whether anybody listens; upstream can skip work when nobody does.
    pub fn has_receivers(&self) -> (r: bool)
        ensures
            r == (alive_count(self.subscribers()) > 0),
    {
        self.subscriber_count() > 0
    }

    /// The number of retained messages.
    pub fn window_len(&self) -> (r: usize)
        ensures
            r == self.contents().len(),
    {
        self.window.len()
    }

    /// The number of messages ever published.
    pub fn published_count(&self) -> (r: u64)
        requires
            self.wf(),
        ensures
            r == self.published(),
    {
        self.base + (self.window.len() as u64)
    }

    /// How many subscriber identifiers have been handed out, the
    /// unsubscribed ones included.
    pub fn subscriber_slots(&self) -> (r: usize)
        ensures
            r == self.subscribers().len(),
    {
        self.subs.len()
    }

    /// Receives the next message for a subscriber: the pending message at
    /// its cursor, in publish order; `Lagged` with the skip count when the
    /// cursor fell out of the window — a gap, never a reordering; `Empty`
    /// when it is at the head.
    pub fn recv(&mut self, id: usize) -> (r: RecvResult)
        requires
            old(self).wf(),
            id < old(self).subscribers().len(),
        ensures
            final(self).wf(),
            final(self).contents() == old(self).contents(),
            final(self).base_index() == old(self).base_index(),
            final(self).cap() == old(self).cap(),
            final(self).published() == old(self).published(),
            ({
                let cursor = old(self).subscribers()[id as int].cursor as int;
                let alive = old(self).subscribers()[id as int].alive;
                let base = old(self).base_index();
                if cursor == old(self).published() {
                    r is Empty && final(self).subscribers() == old(self).subscribers()
                } else if cursor < base {
                    (r matches RecvResult::Lagged(n) && n == base - cursor) && final(self).subscribers()
                        =~= old(self).subscribers().update(
                        id as int,
                        Subscriber { cursor: base as u64, alive },
                    )
                } else {
                    (r matches RecvResult::Msg(m) && m@ == old(self).contents()[cursor - base]) && final(
                        self
                    ).subscribers() =~= old(self).subscribers().update(
                        id as int,
                        Subscriber { cursor: (cursor + 1) as u64, alive },
                    )
                }
            }),
    {
        let cursor = self.subs[id].cursor;
        let alive = self.subs[id].alive;
        let head: u64 = self.base + (self.window.len() as u64);
        if cursor == head {
            RecvResult::Empty
        } else if cursor < self.base {
            let skipped = self.base - cursor;
            self.subs.set(id, Subscriber { cursor: self.base, alive });
            RecvResult::Lagged(skipped)
        } else {
            let idx: usize = (cursor - self.base) as usize;
            let msg = copy_bytes(&self.window[idx]);
            self.subs.set(id, Subscriber { cursor: cursor + 1, alive });
            RecvResult::Msg(msg)
        }
    }

    /// Drains everything pending for a subscriber that has not lagged: the
    /// result is exactly the publish history from its cursor on, in publish
    /// order, and the cursor moves to the head. This is the fan-out
    /// fidelity guarantee in one call.
    pub fn drain(&mut self, id: usize) -> (msgs: Vec<Vec<u8>>)
        requires
            old(self).wf(),
            id < old(self).subscribers().len(),
            old(self).subscribers()[id as int].cursor >= old(self).base_index(),
        ensures
            final(self).wf(),
            final(self).contents() == old(self).contents(),
            final(self).base_index() == old(self).base_index(),
            final(self).cap() == old(self).cap(),
            final(self).published() == old(self).published(),
            msgs_of(msgs@) =~= old(self).contents().skip(
                old(self).subscribers()[id as int].cursor - old(self).base_index(),
            ),
            final(self).subscribers() =~= old(self).subscribers().update(
                id as int,
                Subscriber {
                    cursor: old(self).published() as u64,
                    alive: old(self).subscribers()[id as int].alive,
                },
            ),
    {
        let alive = self.subs[id].alive;
        let cursor = self.subs[id].cursor;
        let mut idx: usize = (cursor - self.base) as usize;
        let ghost start = cursor - self.base;
        let mut msgs: Vec<Vec<u8>> = Vec::new();
        proof {
            assert(msgs_of(msgs@) =~= Seq::<Seq<u8>>::empty());
        }
        while idx < self.window.len()
            invariant
                *self == *old(self),
                0 <= start <= idx <= self.window@.len(),
                msgs_of(msgs@) =~= self.contents().subrange(start as int, idx as int),
            decreases self.window@.len() - idx,
        {
            let m = copy_bytes(&self.window[idx]);
            proof {
                assert(msgs_of(msgs@.push(m)).drop_last() =~= msgs_of(msgs@));
                assert(msgs_of(msgs@.push(m)) =~= msgs_of(msgs@).push(m@));
                assert(self.contents().subrange(start as int, idx + 1) =~= self.contents().subrange(
                    start as int,
                    idx as int,
                ).push(self.contents()[idx as int]));
            }
            msgs.push(m);
            idx = idx + 1;
        }
        let head: u64 = self.base + (self.window.len() as u64);
        self.subs.set(id, Subscriber { cursor: head, alive });
        proof {
            assert(self.contents().subrange(start as int, self.contents().len() as int)
                =~= self.contents().skip(start as int));
        }
        msgs
    }
}

/// Copies a message's bytes.
fn copy_bytes(src: &Vec<u8>) -> (r: Vec<u8>)
    ensures
        r@ == src@,
{
    let mut r: Vec<u8> = Vec::new();
    let mut i: usize = 0;
    while i < src.len()
        invariant
            i <= src@.len(),
            r@ == src@.take(i as int),
        decreases src@.len() - i,
    {
        r.push(src[i]);
        proof {
            assert(src@.take(i + 1) =~= src@.take(i as int).push(src@[i as int]));
        }
        i = i + 1;
    }
    proof {
        assert(src@.take(src@.len() as int) =~= src@);
    }
    r
}

/// Fan-out fidelity: a subscriber that attaches when `contents0`/`base0` is
/// the bus state sits at the head; as long as the window does not overflow,
/// a run of publishes leaves the base untouched and its pending messages
/// are exactly the published ones, in publish order.
pub proof fn lemma_fanout_fidelity(
    contents0: Seq<Seq<u8>>,
    base0: int,
    cap: int,
    msgs: Seq<Seq<u8>>,
)
    requires
        contents0.len() + msgs.len() <= cap,
    ensures
        publish_seq(contents0, base0, cap, msgs).1 == base0,
        publish_seq(contents0, base0, cap, msgs).0 == contents0 + msgs,
        (contents0 + msgs).skip(contents0.len() as int) =~= msgs,
    decreases msgs.len(),
{
    if msgs.len() == 0 {
        assert(contents0 + msgs =~= contents0);
    } else {
        let next = publish_one(contents0, base0, cap, msgs[0]);
        assert(next.0 == contents0.push(msgs[0]) && next.1 == base0);
        lemma_fanout_fidelity(contents0.push(msgs[0]), base0, cap, msgs.skip(1));
        assert(contents0.push(msgs[0]) + msgs.skip(1) =~= contents0 + msgs);
    }
}

} // verus!
