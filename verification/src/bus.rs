//! The event bus: a bounded broadcast channel with drop-oldest semantics.
//!
//! One shared channel; any component may publish; each consumer holds its
//! own cursor. Publication never blocks and never waits for consumers. The
//! bus retains at most `capacity` events: a consumer that falls behind
//! misses the oldest unconsumed events and is told how many it missed.
//! Ordering is per publisher call sequence; no replay is provided — the
//! cache, not the bus, is the durability boundary.

use vstd::prelude::*;

use crate::model::{AgentEvent, AgentEventView};

verus! {

/// What one receive attempt yields.
pub enum RecvOutcome {
    /// The next event, in publish order.
    Event(AgentEvent),
    /// The consumer fell behind; this many events were missed and skipped.
    Lagged(u64),
    /// Nothing published past this consumer's cursor yet.
    Empty,
}

/// One consumer's position in the publish order.
#[derive(Debug, Clone, Copy)]
pub struct BusCursor {
    pos: u64,
}

impl BusCursor {
    /// The absolute position: how many events this consumer has consumed
    /// or skipped.
    pub closed spec fn pos(&self) -> u64 {
        self.pos
    }
}

/// The bounded broadcast channel.
pub struct EventBus {
    capacity: usize,
    buffer: Vec<AgentEvent>,
    total: u64,
}

impl EventBus {
    /// How many events were ever published.
    pub closed spec fn total(&self) -> u64 {
        self.total
    }

    /// The bound the bus was made with.
    pub closed spec fn capacity(&self) -> usize {
        self.capacity
    }

    /// The retained window of events, oldest first: the most recent
    /// publications, at most `capacity` of them.
    pub closed spec fn window(&self) -> Seq<AgentEventView> {
        self.buffer@.map_values(|e: AgentEvent| e@)
    }

    /// The absolute position of the first retained event.
    pub open spec fn window_start(&self) -> int {
        self.total() - self.window().len()
    }

    /// The window never exceeds the capacity and never outruns the count.
    pub closed spec fn wf(&self) -> bool {
        &&& 1 <= self.capacity
        &&& self.buffer@.len() <= self.capacity
        &&& self.buffer@.len() <= self.total
    }

    /// An empty bus with the given bound.
    pub fn new(capacity: usize) -> (bus: EventBus)
        requires
            capacity >= 1,
        ensures
            bus.wf(),
            bus.capacity() == capacity,
            bus.total() == 0,
            bus.window() == Seq::<AgentEventView>::empty(),
    {
        let bus = EventBus { capacity, buffer: Vec::new(), total: 0 };
        proof {
            assert(bus.window() =~= Seq::<AgentEventView>::empty());
        }
        bus
    }

    /// Publish one event. Never blocks and never waits for a consumer: the
    /// count advances, the event enters the window, and when the window is
    /// full the oldest retained event is dropped. (Once the publication
    /// count would overflow its counter the event is dropped instead; no
    /// process reaches that many publications.)
    pub fn publish(&mut self, event: &AgentEvent)
        requires
            old(self).wf(),
        ensures
            final(self).wf(),
            final(self).capacity() == old(self).capacity(),
            old(self).total() < u64::MAX ==> {
                &&& final(self).total() == old(self).total() + 1
                &&& final(self).window() == if old(self).window().len() < old(
                    self,
                ).capacity() {
                    old(self).window().push(event@)
                } else {
                    old(self).window().drop_first().push(event@)
                }
            },
            old(self).total() == u64::MAX ==> final(self).total() == old(self).total()
                && final(self).window() == old(self).window(),
    {
        if self.total == u64::MAX {
            return ;
        }
        if self.buffer.len() == self.capacity {
            self.buffer.remove(0);
            proof {
                assert(self.buffer@.map_values(|e: AgentEvent| e@) =~= old(self).window()
                    .drop_first());
            }
        }
        self.buffer.push(event.duplicate());
        self.total = self.total + 1;
        proof {
            if old(self).window().len() < old(self).capacity() {
                assert(self.window() =~= old(self).window().push(event@));
            } else {
                assert(self.window() =~= old(self).window().drop_first().push(event@));
            }
        }
    }

    /// A new consumer, positioned after everything already published: it
    /// sees exactly the events published after it subscribed.
    pub fn subscribe(&self) -> (c: BusCursor)
        ensures
            c.pos() == self.total(),
    {
        BusCursor { pos: self.total }
    }

    /// One receive attempt for the consumer holding `c`.
    ///
    /// A consumer inside the retained window receives the event at its
    /// cursor, in publish order, and advances by one; one that fell behind
    /// is skipped forward to the start of the window and told how many
    /// events it missed; one that has consumed everything gets `Empty`.
    pub fn recv(&self, c: &mut BusCursor) -> (r: RecvOutcome)
        requires
            self.wf(),
            old(c).pos() <= self.total(),
        ensures
            final(c).pos() <= self.total(),
            match r {
                RecvOutcome::Event(e) => {
                    &&& self.window_start() <= old(c).pos() < self.total()
                    &&& e@ == self.window()[old(c).pos() - self.window_start()]
                    &&& final(c).pos() == old(c).pos() + 1
                },
                RecvOutcome::Lagged(n) => {
                    &&& old(c).pos() < self.window_start()
                    &&& n == self.window_start() - old(c).pos()
                    &&& final(c).pos() == self.window_start()
                },
                RecvOutcome::Empty => {
                    &&& old(c).pos() == self.total()
                    &&& final(c).pos() == old(c).pos()
                },
            },
    {
        let len: u64 = self.buffer.len() as u64;
        let start: u64 = self.total - len;
        if c.pos < start {
            let missed: u64 = start - c.pos;
            c.pos = start;
            return RecvOutcome::Lagged(missed);
        }
        if c.pos == self.total {
            return RecvOutcome::Empty;
        }
        let idx: usize = (c.pos - start) as usize;
        let event: AgentEvent = self.buffer[idx].duplicate();
        c.pos = c.pos + 1;
        RecvOutcome::Event(event)
    }
}

/// The retained window after publishing `evs` in order onto a window `w`
/// of a bus with the given bound: each event enters at the back, and when
/// the window is full the oldest retained event falls out. Handler
/// contracts state their bus effect with this, so what each subscribed
/// consumer can receive is pinned, not only how much was published.
pub open spec fn window_after(
    w: Seq<AgentEventView>,
    cap: int,
    evs: Seq<AgentEventView>,
) -> Seq<AgentEventView>
    decreases evs.len(),
{
    if evs.len() == 0 {
        w
    } else {
        let prev = window_after(w, cap, evs.drop_last());
        if prev.len() < cap {
            prev.push(evs.last())
        } else {
            prev.drop_first().push(evs.last())
        }
    }
}

/// Fan-out: one publish is observed by every consumer that has kept up.
/// A cursor standing at the end of the stream before a publish lies inside
/// the retained window afterwards, and the event found at it is exactly the
/// published one — for every such consumer independently, since each holds
/// its own cursor, and without the publisher ever waiting: `publish` has no
/// failing or blocking case, whatever the consumers do. A consumer that
/// fell out of the window misses exactly the events before the window's
/// start, and no others, as `recv`'s contract states.
pub proof fn lemma_fanout(before: EventBus, after: EventBus, e: AgentEventView, pos: int)
    requires
        before.wf(),
        after.wf(),
        pos == before.total(),
        after.total() == before.total() + 1,
        after.window() == if before.window().len() < before.capacity() {
            before.window().push(e)
        } else {
            before.window().drop_first().push(e)
        },
    ensures
        after.window_start() <= pos < after.total(),
        after.window()[pos - after.window_start()] == e,
{
    if before.window().len() < before.capacity() {
        assert(after.window().last() == e);
    } else {
        assert(after.window().last() == e);
    }
}

} // verus!
