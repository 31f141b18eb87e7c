//! Fan-out delivery of [`ClientEvent`]s to live subscribers.
//!
//! Each publication is appended to the buffer of every subscriber that is
//! registered at that moment, and to the (ghost) history `log()` of all
//! events ever published.  A subscriber's buffer is always the slice of
//! the history it has not consumed yet: events arrive in publication
//! order, at most once, and never from before the subscription.

use vstd::prelude::*;

use crate::event::ClientEvent;

verus! {

/// One subscription's delivery state.
pub struct SubscriberSlot {
    /// False once the subscriber disconnected; the slot stays so that
    /// other subscribers' handles keep their meaning.
    pub live: bool,
    /// Events published since the last consumption and not yet handed
    /// out.
    pub buffer: Vec<ClientEvent>,
    /// History length at subscription time.
    pub since: Ghost<int>,
    /// History index up to which events were already handed out (or
    /// predate the subscription).
    pub taken: Ghost<int>,
}

/// Fan-out channel from the coordinator to zero or more live observers.
pub struct EventBus {
    pub subscribers: Vec<SubscriberSlot>,
    /// Every event ever published, in order.
    pub published: Ghost<Seq<ClientEvent>>,
}

impl EventBus {
    /// The full publication history.
    pub open spec fn log(self) -> Seq<ClientEvent> {
        self.published@
    }

    pub open spec fn slot_wf(self, i: int) -> bool {
        let s = self.subscribers@[i];
        s.live ==> {
            &&& 0 <= s.since@ <= s.taken@ <= self.log().len()
            &&& s.buffer@ == self.log().subrange(s.taken@, self.log().len() as int)
        }
    }

    pub open spec fn wf(self) -> bool {
        forall|i: int| 0 <= i < self.subscribers@.len() ==> #[trigger] self.slot_wf(i)
    }

    pub fn new() -> (bus: EventBus)
        ensures
            bus.wf(),
            bus.log() == Seq::<ClientEvent>::empty(),
            bus.subscribers@.len() == 0,
    {
        EventBus { subscribers: Vec::new(), published: Ghost(Seq::empty()) }
    }

    /// Register a new observer.  Its buffer starts empty: there is no
    /// replay of events published before this call.
    pub fn subscribe(&mut self) -> (id: usize)
        requires
            old(self).wf(),
        ensures
            final(self).wf(),
            id == old(self).subscribers@.len(),
            final(self).subscribers@.len() == old(self).subscribers@.len() + 1,
            forall|i: int|
                0 <= i < old(self).subscribers@.len() ==> final(self).subscribers@[i] == old(
                    self,
                ).subscribers@[i],
            final(self).subscribers@[id as int].live,
            final(self).subscribers@[id as int].buffer@ == Seq::<ClientEvent>::empty(),
            final(self).subscribers@[id as int].since@ == old(self).log().len(),
            final(self).subscribers@[id as int].taken@ == old(self).log().len(),
            final(self).log() == old(self).log(),
    {
        let id = self.subscribers.len();
        let ghost n = self.log().len() as int;
        self.subscribers.push(
            SubscriberSlot { live: true, buffer: Vec::new(), since: Ghost(n), taken: Ghost(n) },
        );
        proof {
            assert(self.subscribers@[id as int].buffer@ =~= self.log().subrange(
                n,
                self.log().len() as int,
            ));
            assert forall|i: int| 0 <= i < self.subscribers@.len() implies #[trigger] self.slot_wf(
                i,
            ) by {
                if i < id {
                    assert(old(self).slot_wf(i));
                }
            }
        }
        id
    }

    /// Drop a subscription.  Other subscribers are unaffected.
    pub fn unsubscribe(&mut self, id: usize)
        requires
            old(self).wf(),
        ensures
            final(self).wf(),
            final(self).log() == old(self).log(),
            final(self).subscribers@.len() == old(self).subscribers@.len(),
            id < old(self).subscribers@.len() ==> !final(self).subscribers@[id as int].live,
            forall|i: int|
                0 <= i < old(self).subscribers@.len() && i != id ==> final(self).subscribers@[i]
                    == old(self).subscribers@[i],
    {
        if id < self.subscribers.len() {
            self.subscribers[id].live = false;
            self.subscribers[id].buffer = Vec::new();
            assert forall|i: int| 0 <= i < self.subscribers@.len() implies #[trigger] self.slot_wf(
                i,
            ) by {
                assert(old(self).slot_wf(i));
            }
        }
    }

    /// Deliver `e` to every live subscriber and record it in the history.
    /// Non-blocking by construction: delivery is an append to each
    /// buffer, never a wait on any observer.
    pub fn publish(&mut self, e: ClientEvent)
        requires
            old(self).wf(),
        ensures
            final(self).wf(),
            final(self).log() == old(self).log().push(e),
            final(self).subscribers@.len() == old(self).subscribers@.len(),
            forall|i: int|
                #![trigger final(self).subscribers@[i]]
                0 <= i < old(self).subscribers@.len() ==> {
                    let s0 = old(self).subscribers@[i];
                    let s1 = final(self).subscribers@[i];
                    &&& s1.live == s0.live
                    &&& s1.since == s0.since
                    &&& s1.taken == s0.taken
                    &&& s1.buffer@ == if s0.live {
                        s0.buffer@.push(e)
                    } else {
                        s0.buffer@
                    }
                },
    {
        let n = self.subscribers.len();
        let mut i: usize = 0;
        while i < n
            invariant
                n == self.subscribers@.len(),
                i <= n,
                self.published == old(self).published,
                forall|k: int| i <= k < n ==> self.subscribers@[k] == old(self).subscribers@[k],
                forall|k: int|
                    #![trigger self.subscribers@[k]]
                    0 <= k < i ==> {
                        let s0 = old(self).subscribers@[k];
                        let s1 = self.subscribers@[k];
                        &&& s1.live == s0.live
                        &&& s1.since == s0.since
                        &&& s1.taken == s0.taken
                        &&& s1.buffer@ == if s0.live {
                            s0.buffer@.push(e)
                        } else {
                            s0.buffer@
                        }
                    },
            decreases n - i,
        {
            if self.subscribers[i].live {
                let dup = e.duplicate();
                self.subscribers[i].buffer.push(dup);
            }
            i += 1;
        }
        self.published = Ghost(self.published@.push(e));
        proof {
            assert forall|k: int| 0 <= k < self.subscribers@.len() implies #[trigger] self.slot_wf(
                k,
            ) by {
                assert(old(self).slot_wf(k));
                let s0 = old(self).subscribers@[k];
                if s0.live {
                    assert(self.log().subrange(s0.taken@, self.log().len() as int) =~= old(
                        self,
                    ).log().subrange(s0.taken@, old(self).log().len() as int).push(e));
                }
            }
        }
    }

    /// Hand out, and consume, everything published since the last call
    /// (or since subscription).  A second call without intervening
    /// publications returns nothing: delivery is at most once.  An
    /// unknown or disconnected `id` yields nothing.
    pub fn take_events(&mut self, id: usize) -> (evs: Vec<ClientEvent>)
        requires
            old(self).wf(),
        ensures
            final(self).wf(),
            final(self).log() == old(self).log(),
            final(self).subscribers@.len() == old(self).subscribers@.len(),
            forall|i: int|
                0 <= i < old(self).subscribers@.len() && i != id ==> final(self).subscribers@[i]
                    == old(self).subscribers@[i],
            ({
                if id < old(self).subscribers@.len() && old(self).subscribers@[id as int].live {
                    let s0 = old(self).subscribers@[id as int];
                    let s1 = final(self).subscribers@[id as int];
                    &&& evs@ == old(self).log().subrange(s0.taken@, old(self).log().len() as int)
                    &&& evs@ == s0.buffer@
                    &&& s1.live
                    &&& s1.since == s0.since
                    &&& s1.taken@ == old(self).log().len()
                    &&& s1.buffer@ == Seq::<ClientEvent>::empty()
                } else {
                    evs@ == Seq::<ClientEvent>::empty() && final(self).subscribers@ == old(
                        self,
                    ).subscribers@
                }
            }),
    {
        if id < self.subscribers.len() {
            if self.subscribers[id].live {
                proof {
                    assert(old(self).slot_wf(id as int));
                }
                let mut out: Vec<ClientEvent> = Vec::new();
                core::mem::swap(&mut out, &mut self.subscribers[id].buffer);
                let ghost n = self.log().len() as int;
                self.subscribers[id].taken = Ghost(n);
                assert(self.subscribers@[id as int].buffer@ =~= self.log().subrange(
                    self.log().len() as int,
                    self.log().len() as int,
                ));
                assert forall|i: int|
                    0 <= i < self.subscribers@.len() implies #[trigger] self.slot_wf(i) by {
                    assert(old(self).slot_wf(i));
                }
                return out;
            }
        }
        Vec::new()
    }
}

} // verus!
