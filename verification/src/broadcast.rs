//! The fan-out broadcaster: one publisher, many independent subscribers.
//! Publishing never blocks on a slow subscriber; each subscription has a
//! bounded lag window, and one that falls behind it is told how much was
//! skipped and then continues with the newer packets.

use vstd::prelude::*;

use crate::danmaku::DanmakuPacket;
use crate::danmaku::PacketView;

verus! {

/// The broadcast distribution primitive. Its ghost `history` is the full
/// sequence of packets ever published, in publish order; the executable
/// state retains only the most recent `capacity()` of them.
pub struct Broadcaster {
    cap: usize,
    entries: Vec<DanmakuPacket>,
    published: u64,
    closed: bool,
    history: Ghost<Seq<PacketView>>,
}

impl Broadcaster {
    /// Everything ever published, in publish order.
    pub closed spec fn history(self) -> Seq<PacketView> {
        self.history@
    }

    /// The lag window: how far a subscriber may fall behind before losing
    /// packets.
    pub closed spec fn capacity(self) -> nat {
        self.cap as nat
    }

    /// How many packets have been published.
    pub open spec fn count(self) -> nat {
        self.history().len()
    }

    /// Whether the publisher is gone.
    pub closed spec fn spec_closed(self) -> bool {
        self.closed
    }

    /// How many of the newest packets are still retained.
    pub closed spec fn retained(self) -> nat {
        if self.published >= self.cap {
            self.cap as nat
        } else {
            self.published as nat
        }
    }

    /// The retained entries are exactly the last `retained()` packets of
    /// the history.
    pub closed spec fn wf(self) -> bool {
        &&& 1 <= self.cap
        &&& self.history@.len() == self.published
        &&& self.entries@.len() == self.retained()
        &&& forall|i: int|
            0 <= i < self.entries@.len() ==> self.entries@[i]@ == self.history@[self.published
                - self.entries@.len() + i]
    }

    /// A fresh broadcaster with the given lag window and empty history.
    pub fn new(capacity: usize) -> (b: Broadcaster)
        requires
            capacity >= 1,
        ensures
            b.wf(),
            b.capacity() == capacity,
            b.count() == 0,
            b.history() =~= Seq::<PacketView>::empty(),
            !b.spec_closed(),
    {
        Broadcaster {
            cap: capacity,
            entries: Vec::new(),
            published: 0,
            closed: false,
            history: Ghost(Seq::empty()),
        }
    }

    /// Publishes one packet: appends it to the history without ever
    /// waiting for subscribers; only the newest `capacity()` packets stay
    /// available for delivery.
    pub fn publish(&mut self, p: DanmakuPacket)
        requires
            old(self).wf(),
            old(self).count() < u64::MAX,
        ensures
            final(self).wf(),
            final(self).capacity() == old(self).capacity(),
            final(self).spec_closed() == old(self).spec_closed(),
            final(self).count() == old(self).count() + 1,
            final(self).history() =~= old(self).history().push(p@),
    {
        if self.entries.len() >= self.cap {
            self.entries.remove(0);
        }
        self.entries.push(p);
        self.published = self.published + 1;
        proof {
            self.history@ = self.history@.push(p@);
        }
    }

    /// Records that the publisher is gone; subscribers then see
    /// end-of-stream once they have caught up.
    pub fn close(&mut self)
        requires
            old(self).wf(),
        ensures
            final(self).wf(),
            final(self).capacity() == old(self).capacity(),
            final(self).count() == old(self).count(),
            final(self).history() =~= old(self).history(),
            final(self).spec_closed(),
    {
        self.closed = true;
    }

    /// How many packets have been published, as a plain number.
    pub fn published_count(&self) -> (n: u64)
        requires
            self.wf(),
        ensures
            n == self.count(),
    {
        self.published
    }

    /// A fresh subscription positioned at "now": it sees no backlog, only
    /// what is published after this call.
    pub fn subscribe(&self) -> (s: Subscription)
        requires
            self.wf(),
        ensures
            s.cursor() == self.count(),
            s.ok_for(*self),
    {
        Subscription { cursor: self.published }
    }
}

/// One subscriber's handle: a cursor into the broadcaster's history.
/// Everything at indices below the cursor has been delivered or skipped.
pub struct Subscription {
    cursor: u64,
}

/// What one receive attempt yields.
pub enum RecvOutcome {
    /// The next packet, in publish order.
    Packet(DanmakuPacket),
    /// The subscriber fell behind by more than the lag window; this many
    /// packets were skipped, and delivery continues with newer ones.
    Lagged(u64),
    /// Nothing new yet; try again later.
    Pending,
    /// The publisher is gone and everything has been delivered.
    Closed,
}

impl Subscription {
    /// The next history index this subscription would deliver.
    pub closed spec fn cursor(self) -> nat {
        self.cursor as nat
    }

    /// A subscription never points past its broadcaster's history.
    pub open spec fn ok_for(self, b: Broadcaster) -> bool {
        self.cursor() <= b.count()
    }

    /// One receive attempt. Delivers the history entry at the cursor when
    /// it is still within the lag window; reports `Lagged` with the exact
    /// number of skipped packets when the publisher outran the window;
    /// reports `Pending` or `Closed` when fully caught up.
    pub fn recv(&mut self, b: &Broadcaster) -> (r: RecvOutcome)
        requires
            b.wf(),
            old(self).ok_for(*b),
        ensures
            final(self).ok_for(*b),
            old(self).cursor() <= final(self).cursor(),
            match r {
                RecvOutcome::Packet(p) => {
                    &&& old(self).cursor() < b.count()
                    &&& b.count() - old(self).cursor() <= b.capacity()
                    &&& p@ == b.history()[old(self).cursor() as int]
                    &&& final(self).cursor() == old(self).cursor() + 1
                },
                RecvOutcome::Lagged(n) => {
                    &&& b.count() - old(self).cursor() > b.capacity()
                    &&& n == b.count() - b.capacity() - old(self).cursor()
                    &&& final(self).cursor() == b.count() - b.capacity()
                },
                RecvOutcome::Pending => {
                    &&& old(self).cursor() == b.count()
                    &&& !b.spec_closed()
                    &&& final(self).cursor() == old(self).cursor()
                },
                RecvOutcome::Closed => {
                    &&& old(self).cursor() == b.count()
                    &&& b.spec_closed()
                    &&& final(self).cursor() == old(self).cursor()
                },
            },
    {
        if self.cursor == b.published {
            if b.closed {
                RecvOutcome::Closed
            } else {
                RecvOutcome::Pending
            }
        } else {
            let avail: u64 = b.entries.len() as u64;
            let oldest: u64 = b.published - avail;
            if self.cursor < oldest {
                let n = oldest - self.cursor;
                self.cursor = oldest;
                RecvOutcome::Lagged(n)
            } else {
                let idx: usize = (self.cursor - oldest) as usize;
                let p = b.entries[idx].clone();
                self.cursor = self.cursor + 1;
                RecvOutcome::Packet(p)
            }
        }
    }
}

} // verus!
