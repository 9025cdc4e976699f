//! The fan-in buffer: a bounded, lossy, first-in-first-out queue that many
//! ingress sessions feed and one consumer task drains. Inserting into a
//! full buffer silently discards the oldest unread entry, so producers
//! never wait; under sustained overload the freshest packets win.

use vstd::prelude::*;

use crate::danmaku::DanmakuPacket;
use crate::danmaku::PacketView;

verus! {

/// One lossy insertion: room permitting the packet is appended; a full
/// buffer first discards its oldest entry.
pub open spec fn lossy_push(s: Seq<PacketView>, cap: nat, p: PacketView) -> Seq<PacketView> {
    if s.len() < cap {
        s.push(p)
    } else {
        s.drop_first().push(p)
    }
}

/// The contents after lossily inserting `ps`, in order, into `s`.
pub open spec fn lossy_push_all(s: Seq<PacketView>, cap: nat, ps: Seq<PacketView>) -> Seq<
    PacketView,
>
    decreases ps.len(),
{
    if ps.len() == 0 {
        s
    } else {
        lossy_push_all(lossy_push(s, cap, ps[0]), cap, ps.drop_first())
    }
}

/// Lossy insertion keeps the newest entries: inserting `ps` into `s` leaves
/// exactly the last `cap` entries of `s + ps` (all of them when they fit).
pub proof fn lemma_lossy_push_all_skip(s: Seq<PacketView>, cap: nat, ps: Seq<PacketView>)
    requires
        cap >= 1,
        s.len() <= cap,
    ensures
        lossy_push_all(s, cap, ps) =~= (if s.len() + ps.len() <= cap {
            s + ps
        } else {
            (s + ps).skip(s.len() + ps.len() - cap)
        }),
    decreases ps.len(),
{
    let total = s + ps;
    if ps.len() == 0 {
        assert(s + ps =~= s);
    } else {
        let s1 = lossy_push(s, cap, ps[0]);
        let rest = ps.drop_first();
        lemma_lossy_push_all_skip(s1, cap, rest);
        if s.len() < cap {
            assert(s1 + rest =~= total);
        } else {
            assert(s1 + rest =~= total.skip(1));
            if s1.len() + rest.len() <= cap {
                assert(total.skip(1) =~= total.skip(total.len() - cap));
            } else {
                assert(total.skip(1).skip(s1.len() + rest.len() - cap) =~= total.skip(
                    total.len() - cap,
                ));
            }
        }
    }
}

/// Loss under overload: inserting more packets than the capacity into an
/// empty buffer, with no interleaved drain, retains exactly the most recent
/// `cap` of them, in insertion order; the earlier ones are lost.
pub proof fn lemma_loss_under_overload(cap: nat, ps: Seq<PacketView>)
    requires
        cap >= 1,
        ps.len() >= cap,
    ensures
        lossy_push_all(Seq::empty(), cap, ps) =~= ps.skip(ps.len() - cap),
{
    lemma_lossy_push_all_skip(Seq::empty(), cap, ps);
    assert(Seq::empty() + ps =~= ps);
}

/// The bounded lossy fan-in queue. Its view is the pending contents,
/// oldest first.
pub struct FanInBuffer {
    cap: usize,
    items: Vec<DanmakuPacket>,
    closed: bool,
}

impl View for FanInBuffer {
    type V = Seq<PacketView>;

    closed spec fn view(&self) -> Seq<PacketView> {
        self.items.deep_view()
    }
}

impl FanInBuffer {
    /// The fixed capacity the buffer was created with.
    pub closed spec fn capacity(self) -> nat {
        self.cap as nat
    }

    /// Whether every producer handle is gone; a closed, drained buffer
    /// yields end-of-stream.
    pub closed spec fn spec_closed(self) -> bool {
        self.closed
    }

    /// The buffer never holds more than its capacity, which is positive.
    pub closed spec fn wf(self) -> bool {
        1 <= self.cap && self.items@.len() <= self.cap
    }

    /// An empty open buffer of the given capacity.
    pub fn new(capacity: usize) -> (b: FanInBuffer)
        requires
            capacity >= 1,
        ensures
            b.wf(),
            b.capacity() == capacity,
            b@ =~= Seq::<PacketView>::empty(),
            !b.spec_closed(),
    {
        FanInBuffer { cap: capacity, items: Vec::new(), closed: false }
    }

    /// The number of pending packets.
    pub fn len(&self) -> (n: usize)
        ensures
            n == self@.len(),
    {
        self.items.len()
    }

    /// Inserts without ever blocking: a full buffer first discards its
    /// oldest entry, then the packet is appended.
    pub fn push(&mut self, p: DanmakuPacket)
        requires
            old(self).wf(),
        ensures
            final(self).wf(),
            final(self).capacity() == old(self).capacity(),
            final(self).spec_closed() == old(self).spec_closed(),
            final(self)@ =~= lossy_push(old(self)@, old(self).capacity(), p@),
    {
        if self.items.len() >= self.cap {
            self.items.remove(0);
            proof {
                assert(self.items.deep_view() =~= old(self).items.deep_view().drop_first());
            }
        }
        let ghost mid = self.items.deep_view();
        self.items.push(p);
        proof {
            assert(self.items.deep_view() =~= mid.push(p@));
        }
    }

    /// Removes and returns the oldest pending packet; `None` when the
    /// buffer is empty.
    pub fn pop(&mut self) -> (r: Option<DanmakuPacket>)
        requires
            old(self).wf(),
        ensures
            final(self).wf(),
            final(self).capacity() == old(self).capacity(),
            final(self).spec_closed() == old(self).spec_closed(),
            old(self)@.len() == 0 ==> r is None && final(self)@ =~= old(self)@,
            old(self)@.len() > 0 ==> r is Some && r->0@ == old(self)@[0] && final(self)@
                =~= old(self)@.drop_first(),
    {
        if self.items.len() == 0 {
            None
        } else {
            let p = self.items.remove(0);
            proof {
                assert(self.items.deep_view() =~= old(self).items.deep_view().drop_first());
            }
            Some(p)
        }
    }

    /// Records that all producer handles are gone.
    pub fn close(&mut self)
        requires
            old(self).wf(),
        ensures
            final(self).wf(),
            final(self).capacity() == old(self).capacity(),
            final(self)@ =~= old(self)@,
            final(self).spec_closed(),
    {
        self.closed = true;
    }

    /// Whether the buffer has been closed.
    pub fn is_closed(&self) -> (r: bool)
        ensures
            r == self.spec_closed(),
    {
        self.closed
    }
}

} // verus!
