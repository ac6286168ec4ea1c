//! The status notifier: best-effort fan-out of status changes.
//!
//! Every status transition produces one event; any number of subscribers may
//! attach and each receives the events published after it attached, through a
//! bounded buffer. A slow subscriber never blocks a publisher: when its
//! buffer is full the oldest event is dropped and the loss is counted, and
//! the subscriber is told how much it missed before it reads on. Nothing is
//! persisted, and attaching after a transition never replays it.

use vstd::prelude::*;
use crate::model::TaskStatus;

verus! {

/// One status-change notification: which job moved, and to what.
#[derive(Copy, Clone, Debug, PartialEq, Eq, Structural)]
pub struct StatusEvent {
    pub id: i32,
    pub status: TaskStatus,
}

/// One subscriber's buffered view of the stream, plus how many events it
/// has missed since it last read.
pub struct SubQueue {
    pub buf: Vec<StatusEvent>,
    pub missed: u64,
}

/// What one read hands a subscriber: how far it lagged, the next event, or
/// nothing yet.
#[derive(Copy, Clone, Debug, PartialEq, Eq, Structural)]
pub enum RecvOutcome {
    Lagged(u64),
    Next(StatusEvent),
    Empty,
}

/// A subscriber's buffer after one event is delivered to it: appended when
/// there is room, otherwise the oldest event makes way.
pub open spec fn delivered_buf(buf: Seq<StatusEvent>, ev: StatusEvent, cap: nat) -> Seq<
    StatusEvent,
> {
    if buf.len() < cap {
        buf.push(ev)
    } else {
        buf.drop_first().push(ev)
    }
}

/// A subscriber's miss count after one delivery: it grows (saturating) only
/// when an event had to be dropped.
pub open spec fn delivered_missed(buf_len: nat, missed: u64, cap: nat) -> u64 {
    if buf_len < cap {
        missed
    } else if missed < u64::MAX {
        (missed + 1) as u64
    } else {
        missed
    }
}

/// The channel `after` is the channel `before` with one event delivered to
/// every subscriber.
pub open spec fn published(before: Notifier, after: Notifier, ev: StatusEvent) -> bool {
    &&& after.cap == before.cap
    &&& after.subs@.len() == before.subs@.len()
    &&& forall|i: int|
        0 <= i < before.subs@.len() ==> (#[trigger] after.subs@[i]).buf@ == delivered_buf(
            before.subs@[i].buf@,
            ev,
            before.cap as nat,
        )
    &&& forall|i: int|
        0 <= i < before.subs@.len() ==> (#[trigger] after.subs@[i]).missed == delivered_missed(
            before.subs@[i].buf@.len(),
            before.subs@[i].missed,
            before.cap as nat,
        )
}

/// The in-process fan-out channel.
pub struct Notifier {
    pub cap: usize,
    pub subs: Vec<SubQueue>,
}

impl Notifier {
    /// Buffers never outgrow the capacity the channel was made with.
    pub open spec fn wf(self) -> bool {
        &&& self.cap >= 1
        &&& forall|i: int|
            0 <= i < self.subs.len() ==> (#[trigger] self.subs[i]).buf.len() <= self.cap
    }

    /// A channel with no subscribers yet.
    pub fn new(cap: usize) -> (r: Notifier)
        requires
            cap >= 1,
        ensures
            r.wf(),
            r.cap == cap,
            r.subs@.len() == 0,
    {
        Notifier { cap, subs: Vec::new() }
    }

    /// Attach a new subscriber and hand back its handle. The new buffer is
    /// empty: events published before attachment are never replayed.
    pub fn subscribe(&mut self) -> (h: usize)
        requires
            old(self).wf(),
        ensures
            final(self).wf(),
            final(self).cap == old(self).cap,
            h == old(self).subs@.len(),
            final(self).subs@.len() == h + 1,
            forall|i: int| 0 <= i < h ==> final(self).subs@[i] == old(self).subs@[i],
            final(self).subs@[h as int].buf@ =~= Seq::<StatusEvent>::empty(),
            final(self).subs@[h as int].missed == 0,
    {
        let h = self.subs.len();
        self.subs.push(SubQueue { buf: Vec::new(), missed: 0 });
        h
    }

    /// Deliver one event to every subscriber, dropping the oldest buffered
    /// event of any subscriber that has fallen behind (and counting the
    /// loss) rather than ever blocking.
    #[verifier::loop_isolation(false)]
    pub fn publish(&mut self, ev: StatusEvent)
        requires
            old(self).wf(),
        ensures
            final(self).wf(),
            published(*old(self), *final(self), ev),
            final(self).cap == old(self).cap,
            final(self).subs@.len() == old(self).subs@.len(),
            forall|i: int|
                0 <= i < old(self).subs@.len() ==> (#[trigger] final(self).subs@[i]).buf@
                    == delivered_buf(old(self).subs@[i].buf@, ev, old(self).cap as nat),
            forall|i: int|
                0 <= i < old(self).subs@.len() ==> (#[trigger] final(self).subs@[i]).missed
                    == delivered_missed(
                    old(self).subs@[i].buf@.len(),
                    old(self).subs@[i].missed,
                    old(self).cap as nat,
                ),
    {
        let n = self.subs.len();
        for i in 0..n
            invariant
                self.subs@.len() == n,
                self.cap == old(self).cap,
                forall|k: int|
                    0 <= k < i ==> (#[trigger] self.subs@[k]).buf@ == delivered_buf(
                        old(self).subs@[k].buf@,
                        ev,
                        old(self).cap as nat,
                    ),
                forall|k: int|
                    0 <= k < i ==> (#[trigger] self.subs@[k]).missed == delivered_missed(
                        old(self).subs@[k].buf@.len(),
                        old(self).subs@[k].missed,
                        old(self).cap as nat,
                    ),
                forall|k: int| i <= k < n ==> (#[trigger] self.subs@[k]) == old(self).subs@[k],
                forall|k: int|
                    0 <= k < n ==> (#[trigger] self.subs@[k]).buf@.len() <= self.cap,
        {
            let mut q = SubQueue { buf: Vec::new(), missed: 0 };
            self.subs.set_and_swap(i, &mut q);
            if q.buf.len() == self.cap {
                q.buf.remove(0);
                proof {
                    assert(q.buf@ =~= old(self).subs@[i as int].buf@.drop_first());
                }
                if q.missed < u64::MAX {
                    q.missed = q.missed + 1;
                }
            }
            q.buf.push(ev);
            self.subs.set(i, q);
        }
    }

    /// One read by one subscriber: report any lag first, then the oldest
    /// buffered event, else nothing.
    pub fn recv(&mut self, h: usize) -> (r: RecvOutcome)
        requires
            old(self).wf(),
            h < old(self).subs@.len(),
        ensures
            final(self).wf(),
            final(self).cap == old(self).cap,
            final(self).subs@.len() == old(self).subs@.len(),
            forall|i: int|
                0 <= i < old(self).subs@.len() && i != h ==> (#[trigger] final(self).subs@[i])
                    == old(self).subs@[i],
            ({
                let q = old(self).subs@[h as int];
                if q.missed > 0 {
                    &&& r == RecvOutcome::Lagged(q.missed)
                    &&& final(self).subs@[h as int].buf@ == q.buf@
                    &&& final(self).subs@[h as int].missed == 0
                } else if q.buf@.len() == 0 {
                    &&& r == RecvOutcome::Empty
                    &&& final(self).subs@[h as int] == q
                } else {
                    &&& r == RecvOutcome::Next(q.buf@[0])
                    &&& final(self).subs@[h as int].buf@ == q.buf@.drop_first()
                    &&& final(self).subs@[h as int].missed == 0
                }
            }),
    {
        let mut q = SubQueue { buf: Vec::new(), missed: 0 };
        self.subs.set_and_swap(h, &mut q);
        let r = if q.missed > 0 {
            let lag = q.missed;
            q.missed = 0;
            RecvOutcome::Lagged(lag)
        } else if q.buf.len() == 0 {
            RecvOutcome::Empty
        } else {
            let ev = q.buf.remove(0);
            proof {
                assert(q.buf@ =~= old(self).subs@[h as int].buf@.drop_first());
            }
            RecvOutcome::Next(ev)
        };
        self.subs.set(h, q);
        r
    }
}

} // verus!
