//! Fan-out of accepted events to live subscribers.
//!
//! An explicit registry of subscriber handles, each with its own bounded
//! queue. Publishing never blocks and never fails: a queue that is full marks
//! its subscriber lagged and drops the event for that subscriber only; the
//! subscriber is told so by a lag marker on its stream, in place of the
//! dropped events, and keeps operating. A subscriber that keeps up receives
//! every event published after it subscribed, in publish order, with no gaps
//! and no duplicates; that is what the well-formedness invariant says.

use vstd::prelude::*;
use vstd::pervasive::VecAdditionalExecFns;
use crate::event::{EventModel, PassEvent};

verus! {

/// Model of one subscriber handle.
pub struct SubModel {
    /// False once the consumer disconnected.
    pub live: bool,
    /// True while a lag marker is owed to the consumer.
    pub lagged: bool,
    /// Events delivered but not yet consumed.
    pub buf: Seq<EventModel>,
    /// How much of the publish history this subscriber has consumed or,
    /// after a lag, skipped.
    pub taken: int,
}

/// One item of a subscriber's stream: an event, or the marker standing in
/// place of events dropped while the subscriber lagged.
#[derive(Debug, PartialEq, Eq)]
pub enum StreamItem {
    Event(PassEvent),
    Lagged,
}

/// One live consumer's view of the event stream.
pub struct Subscriber {
    pub live: bool,
    pub lagged: bool,
    pub buf: Vec<PassEvent>,
    pub taken: Ghost<int>,
}

impl View for Subscriber {
    type V = SubModel;

    open spec fn view(&self) -> SubModel {
        SubModel {
            live: self.live,
            lagged: self.lagged,
            buf: self.buf@.map_values(|e: PassEvent| e@),
            taken: self.taken@,
        }
    }
}

/// A live subscriber's queue is a contiguous window of the publish history:
/// bounded by the queue capacity, starting at what the subscriber consumed,
/// and — while it is not lagged — reaching to the very end of the history.
pub open spec fn sub_wf(s: SubModel, history: Seq<EventModel>, cap: int) -> bool {
    s.live ==> {
        &&& s.buf.len() <= cap
        &&& 0 <= s.taken
        &&& s.taken + s.buf.len() <= history.len()
        &&& s.buf == history.subrange(s.taken, s.taken + s.buf.len())
        &&& (!s.lagged ==> s.taken + s.buf.len() == history.len())
    }
}

/// What publishing one event does to one subscriber: append when there is
/// room, mark lagged (and drop the event for this subscriber) when the queue
/// is full, leave disconnected or already-lagged subscribers alone.
pub open spec fn publish_one(s: SubModel, ev: EventModel, cap: int) -> SubModel {
    if s.live && !s.lagged && s.buf.len() < cap {
        SubModel { buf: s.buf.push(ev), ..s }
    } else if s.live && !s.lagged {
        SubModel { lagged: true, ..s }
    } else {
        s
    }
}

/// Publishing a whole sequence of events, one by one.
pub open spec fn publish_fold(s: SubModel, evs: Seq<EventModel>, cap: int) -> SubModel
    decreases evs.len(),
{
    if evs.len() == 0 {
        s
    } else {
        publish_fold(publish_one(s, evs[0], cap), evs.skip(1), cap)
    }
}

/// The fan-out registry: every subscriber queue, the shared queue capacity,
/// and (in the model) the full sequence of events published so far.
pub struct Broadcaster {
    pub cap: usize,
    pub subs: Vec<Subscriber>,
    pub history: Ghost<Seq<EventModel>>,
}

impl Broadcaster {
    /// Every subscriber queue is a well-formed window of the history.
    pub open spec fn wf(self) -> bool {
        forall|k: int|
            0 <= k < self.subs@.len() ==> sub_wf(
                (#[trigger] self.subs@[k])@,
                self.history@,
                self.cap as int,
            )
    }

    /// A fresh registry with no subscribers and nothing published;
    /// each subscriber queue will hold at most `cap` pending events.
    pub fn new(cap: usize) -> (r: Broadcaster)
        ensures
            r.wf(),
            r.cap == cap,
            r.subs@.len() == 0,
            r.history@ == Seq::<EventModel>::empty(),
    {
        Broadcaster { cap, subs: Vec::new(), history: Ghost(Seq::empty()) }
    }

    /// Register a new live subscriber and return its handle index. It will
    /// see every event published after this call and nothing published
    /// before: no backlog replay.
    pub fn subscribe(&mut self) -> (id: usize)
        requires
            old(self).wf(),
        ensures
            final(self).wf(),
            final(self).cap == old(self).cap,
            final(self).history@ == old(self).history@,
            id == old(self).subs@.len(),
            final(self).subs@.len() == old(self).subs@.len() + 1,
            forall|k: int|
                0 <= k < old(self).subs@.len() ==> final(self).subs@[k] == old(self).subs@[k],
            final(self).subs@[id as int]@ == (SubModel {
                live: true,
                lagged: false,
                buf: Seq::<EventModel>::empty(),
                taken: old(self).history@.len() as int,
            }),
    {
        let id = self.subs.len();
        let sub = Subscriber {
            live: true,
            lagged: false,
            buf: Vec::new(),
            taken: Ghost(self.history@.len() as int),
        };
        proof {
            assert(sub@.buf =~= Seq::<EventModel>::empty());
        }
        self.subs.push(sub);
        proof {
            assert(self.subs@[id as int]@.buf =~= self.history@.subrange(
                self.history@.len() as int,
                self.history@.len() as int,
            ));
        }
        id
    }

    /// Drop a subscriber handle: its queue is discarded and it receives
    /// nothing further. Other subscribers are untouched.
    pub fn unsubscribe(&mut self, id: usize)
        requires
            old(self).wf(),
            id < old(self).subs@.len(),
        ensures
            final(self).wf(),
            final(self).cap == old(self).cap,
            final(self).history@ == old(self).history@,
            final(self).subs@.len() == old(self).subs@.len(),
            forall|k: int|
                0 <= k < old(self).subs@.len() && k != id ==> final(self).subs@[k] == old(
                    self,
                ).subs@[k],
            !final(self).subs@[id as int]@.live,
    {
        let dead = Subscriber { live: false, lagged: false, buf: Vec::new(), taken: Ghost(0int) };
        self.subs.set(id, dead);
    }

    /// Deliver an event to every live subscriber that has room; mark the
    /// rest lagged. Never blocks, never fails, never delays one subscriber
    /// for another: each queue changes by `publish_one` alone.
    pub fn publish(&mut self, e: &PassEvent)
        requires
            old(self).wf(),
        ensures
            final(self).wf(),
            final(self).cap == old(self).cap,
            final(self).history@ == old(self).history@.push(e@),
            final(self).subs@.len() == old(self).subs@.len(),
            forall|k: int|
                0 <= k < old(self).subs@.len() ==> (#[trigger] final(self).subs@[k])@
                    == publish_one(old(self).subs@[k]@, e@, old(self).cap as int),
    {
        let ghost oldhist = self.history@;
        let ghost oldsubs = self.subs@;
        let cap = self.cap;
        proof {
            self.history@ = self.history@.push(e@);
        }
        let mut work: Vec<Subscriber> = Vec::new();
        core::mem::swap(&mut self.subs, &mut work);
        let mut updated: Vec<Subscriber> = Vec::new();
        while work.len() > 0
            invariant
                updated@.len() + work@.len() == oldsubs.len(),
                forall|k: int|
                    0 <= k < work@.len() ==> #[trigger] work@[k] == oldsubs[updated@.len() + k],
                forall|k: int|
                    0 <= k < updated@.len() ==> (#[trigger] updated@[k])@ == publish_one(
                        oldsubs[k]@,
                        e@,
                        cap as int,
                    ),
                forall|k: int|
                    0 <= k < oldsubs.len() ==> sub_wf((#[trigger] oldsubs[k])@, oldhist, cap as int),
            decreases work@.len(),
        {
            let mut sub = work.remove(0);
            let ghost pre = sub@;
            if sub.live && !sub.lagged {
                if sub.buf.len() < cap {
                    sub.buf.push(e.duplicate());
                    proof {
                        assert(sub@.buf =~= pre.buf.push(e@));
                    }
                } else {
                    sub.lagged = true;
                }
            }
            updated.push(sub);
        }
        self.subs = updated;
        proof {
            assert forall|k: int| 0 <= k < self.subs@.len() implies sub_wf(
                (#[trigger] self.subs@[k])@,
                self.history@,
                self.cap as int,
            ) by {
                let os = oldsubs[k]@;
                let ns = self.subs@[k]@;
                assert(ns == publish_one(os, e@, cap as int));
                assert(sub_wf(os, oldhist, cap as int));
                if os.live {
                    if !os.lagged && os.buf.len() < cap {
                        assert(ns.buf =~= self.history@.subrange(
                            ns.taken,
                            ns.taken + ns.buf.len(),
                        ));
                    } else {
                        assert(ns.buf =~= self.history@.subrange(
                            ns.taken,
                            ns.taken + ns.buf.len(),
                        ));
                    }
                }
            }
        }
    }

    /// How many subscriber handles exist (live or not).
    pub fn subscriber_count(&self) -> (n: usize)
        ensures
            n == self.subs@.len(),
    {
        self.subs.len()
    }

    /// Take the next item of subscriber `id`'s stream: the oldest pending
    /// event; or, once the queue is drained after a lag, the lag marker
    /// (clearing the lag and resuming from the present); or nothing.
    pub fn poll(&mut self, id: usize) -> (r: Option<StreamItem>)
        requires
            old(self).wf(),
            id < old(self).subs@.len(),
        ensures
            final(self).wf(),
            final(self).cap == old(self).cap,
            final(self).history@ == old(self).history@,
            final(self).subs@.len() == old(self).subs@.len(),
            forall|k: int|
                0 <= k < old(self).subs@.len() && k != id ==> final(self).subs@[k] == old(
                    self,
                ).subs@[k],
            ({
                let os = old(self).subs@[id as int]@;
                let ns = final(self).subs@[id as int]@;
                match r {
                    Option::None => ns == os && (!os.live || (os.buf.len() == 0 && !os.lagged)),
                    Option::Some(item) => match item {
                        StreamItem::Event(ev) => {
                            &&& os.live
                            &&& os.buf.len() > 0
                            &&& ev@ == os.buf[0]
                            &&& ev@ == old(self).history@[os.taken]
                            &&& ns == SubModel {
                                buf: os.buf.skip(1),
                                taken: os.taken + 1,
                                ..os
                            }
                        },
                        StreamItem::Lagged => {
                            &&& os.live
                            &&& os.buf.len() == 0
                            &&& os.lagged
                            &&& ns == SubModel {
                                lagged: false,
                                taken: old(self).history@.len() as int,
                                ..os
                            }
                        },
                    },
                }
            }),
    {
        let ghost oldself = *self;
        let mut tmp = Subscriber { live: false, lagged: false, buf: Vec::new(), taken: Ghost(0int) };
        self.subs.set_and_swap(id, &mut tmp);
        let ghost os = tmp@;
        let r: Option<StreamItem>;
        if !tmp.live {
            r = Option::None;
        } else if tmp.buf.len() > 0 {
            let ev = tmp.buf.remove(0);
            proof {
                tmp.taken@ = tmp.taken@ + 1;
                assert(tmp@.buf =~= os.buf.skip(1));
                assert(os.buf[0] == oldself.history@[os.taken]);
            }
            r = Option::Some(StreamItem::Event(ev));
        } else if tmp.lagged {
            tmp.lagged = false;
            tmp.taken = Ghost(self.history@.len() as int);
            proof {
                assert(tmp@.buf =~= Seq::<EventModel>::empty());
            }
            r = Option::Some(StreamItem::Lagged);
        } else {
            r = Option::None;
        }
        self.subs.set(id, tmp);
        proof {
            assert(self.subs@ =~= oldself.subs@.update(id as int, self.subs@[id as int]));
            let ns = self.subs@[id as int]@;
            if os.live {
                if os.buf.len() > 0 {
                    assert(ns.buf =~= oldself.history@.subrange(ns.taken, ns.taken + ns.buf.len()));
                } else if os.lagged {
                    assert(ns.buf =~= oldself.history@.subrange(ns.taken, ns.taken + ns.buf.len()));
                }
            }
        }
        r
    }
}

/// Law: a subscriber that is live and not lagged holds exactly the events
/// published since the point it has consumed up to — the whole tail of the
/// history, in publish order, no gaps, no duplicates.
pub proof fn lemma_fast_subscriber_complete(b: Broadcaster, k: int)
    requires
        b.wf(),
        0 <= k < b.subs@.len(),
        b.subs@[k]@.live,
        !b.subs@[k]@.lagged,
    ensures
        b.subs@[k]@.buf == b.history@.skip(b.subs@[k]@.taken),
        b.subs@[k]@.taken + b.subs@[k]@.buf.len() == b.history@.len(),
{
    let s = b.subs@[k]@;
    assert(sub_wf(s, b.history@, b.cap as int));
    assert(b.history@.subrange(s.taken, s.taken + s.buf.len()) =~= b.history@.skip(s.taken));
}

/// Law: once a live subscriber is lagged, further publishes keep it lagged
/// until it drains and takes the marker.
proof fn lemma_lagged_stays(s: SubModel, evs: Seq<EventModel>, cap: int)
    requires
        s.live,
        s.lagged,
    ensures
        publish_fold(s, evs, cap) == s,
    decreases evs.len(),
{
    if evs.len() > 0 {
        lemma_lagged_stays(s, evs.skip(1), cap);
    }
}

/// Law: a subscriber that never drains its queue is marked lagged — not
/// grown without bound — once more events are published than its queue can
/// hold; its queue never exceeds the capacity.
pub proof fn lemma_slow_subscriber_lags(s: SubModel, evs: Seq<EventModel>, cap: int)
    requires
        s.live,
        !s.lagged,
        s.buf.len() <= cap,
        s.buf.len() + evs.len() > cap,
    ensures
        publish_fold(s, evs, cap).lagged,
        publish_fold(s, evs, cap).buf.len() <= cap,
    decreases evs.len(),
{
    let s2 = publish_one(s, evs[0], cap);
    if s.buf.len() < cap {
        lemma_slow_subscriber_lags(s2, evs.skip(1), cap);
    } else {
        lemma_lagged_stays(s2, evs.skip(1), cap);
    }
}

} // verus!
