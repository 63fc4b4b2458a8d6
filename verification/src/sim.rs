use vstd::prelude::*;
use vstd::math::min;
use crate::nic::Nic;
use crate::packet::{Packet, PacketModel};
use crate::stack::{Receiver, Sender};
use crate::units::{RxUnit, TxUnit};

verus! {

/// An in-memory pool and driver, scriptable for exercising the bridge:
/// a bounded allocation quota, a queue of frames waiting to be received,
/// a schedule of per-call transmit acceptance caps, and a record of every
/// frame the driver took.
pub struct SimNic {
    entry: usize,
    quota: usize,
    incoming: Vec<Packet>,
    accepts: Vec<usize>,
    sent: Vec<Packet>,
    next_tag: u64,
    given: Ghost<Set<u64>>,
}

impl SimNic {
    /// Tags are minted from a counter: whatever the simulator still holds
    /// has a tag below the counter, never handed out before, and distinct
    /// from every other held tag; handed-out tags sit below the counter
    /// too.
    #[verifier::type_invariant]
    spec fn sim_inv(self) -> bool {
        &&& forall|i: int, j: int|
            0 <= i < j < self.incoming@.len() ==> self.incoming@[i]@.tag != self.incoming@[j]@.tag
        &&& forall|i: int|
            0 <= i < self.incoming@.len() ==> (#[trigger] self.incoming@[i])@.tag < self.next_tag
        &&& forall|i: int|
            0 <= i < self.incoming@.len() ==> !self.given@.contains(
                (#[trigger] self.incoming@[i])@.tag,
            )
        &&& forall|i: int|
            0 <= i < self.incoming@.len() ==> (#[trigger] self.incoming@[i])@.cap == self.entry
        &&& forall|t: u64| self.given@.contains(t) ==> t < self.next_tag
    }

    /// The fixed buffer size this pool was made with.
    pub closed spec fn spec_entry(&self) -> usize {
        self.entry
    }

    /// How many buffers the pool can still hand out.
    pub closed spec fn spec_quota(&self) -> usize {
        self.quota
    }

    /// The frames waiting to be received, oldest first.
    pub closed spec fn spec_incoming(&self) -> Seq<PacketModel> {
        Seq::new(self.incoming@.len(), |i: int| self.incoming@[i]@)
    }

    /// Every frame the driver accepted for transmission, oldest first.
    pub closed spec fn spec_sent(&self) -> Seq<PacketModel> {
        Seq::new(self.sent@.len(), |i: int| self.sent@[i]@)
    }

    /// The remaining schedule of per-call acceptance caps.
    pub closed spec fn spec_accepts(&self) -> Seq<usize> {
        self.accepts@
    }

    /// A simulator with the given fixed buffer size: no allocation quota,
    /// nothing to receive, and a driver that accepts everything offered.
    pub fn new(entry: usize) -> (r: SimNic)
        ensures
            r.spec_entry() == entry,
            r.spec_quota() == 0,
            r.spec_incoming().len() == 0,
            r.spec_sent().len() == 0,
            r.spec_accepts().len() == 0,
    {
        SimNic {
            entry,
            quota: 0,
            incoming: Vec::new(),
            accepts: Vec::new(),
            sent: Vec::new(),
            next_tag: 0,
            given: Ghost(Set::empty()),
        }
    }

    /// Let the pool hand out up to `quota` buffers from now on.
    pub fn set_quota(&mut self, quota: usize)
        ensures
            final(self).spec_quota() == quota,
            final(self).spec_entry() == old(self).spec_entry(),
            final(self).spec_incoming() == old(self).spec_incoming(),
            final(self).spec_sent() == old(self).spec_sent(),
            final(self).spec_accepts() == old(self).spec_accepts(),
    {
        proof {
            use_type_invariant(&*self);
        }
        self.quota = quota;
    }

    /// Cap what the driver accepts on its next transmit call; with no cap
    /// scheduled, the driver accepts everything offered.
    pub fn push_accept(&mut self, n: usize)
        ensures
            final(self).spec_accepts() == old(self).spec_accepts().push(n),
            final(self).spec_entry() == old(self).spec_entry(),
            final(self).spec_quota() == old(self).spec_quota(),
            final(self).spec_incoming() == old(self).spec_incoming(),
            final(self).spec_sent() == old(self).spec_sent(),
    {
        proof {
            use_type_invariant(&*self);
        }
        let mut accepts: Vec<usize> = Vec::new();
        core::mem::swap(&mut accepts, &mut self.accepts);
        accepts.push(n);
        core::mem::swap(&mut accepts, &mut self.accepts);
        proof {
            assert(self.spec_incoming() =~= old(self).spec_incoming());
            assert(self.spec_sent() =~= old(self).spec_sent());
        }
    }

    /// Put a frame with the given bytes on the wire, to be received after
    /// everything already waiting. Fails — handing the bytes back — when
    /// the frame would not fit a buffer or the tag space is used up.
    pub fn push_incoming(&mut self, data: Vec<u8>) -> (r: Result<(), Vec<u8>>)
        ensures
            (r is Ok) <==> (data@.len() <= old(self).spec_entry()
                && old(self).tag_space_left()),
            r is Ok ==> final(self).spec_incoming().len() == old(self).spec_incoming().len() + 1
                && final(self).spec_incoming()[old(self).spec_incoming().len() as int].bytes
                == data@,
            r matches Err(d) && d == data || r is Ok,
            final(self).spec_entry() == old(self).spec_entry(),
            final(self).spec_quota() == old(self).spec_quota(),
            final(self).spec_sent() == old(self).spec_sent(),
            final(self).spec_accepts() == old(self).spec_accepts(),
            r is Ok ==> forall|i: int|
                0 <= i < old(self).spec_incoming().len() ==> final(self).spec_incoming()[i] == old(
                    self,
                ).spec_incoming()[i],
            r is Err ==> final(self).spec_incoming() == old(self).spec_incoming(),
    {
        proof {
            use_type_invariant(&*self);
        }
        if data.len() > self.entry || self.next_tag == u64::MAX {
            return Err(data);
        }
        let tag = self.next_tag;
        let mut p = Packet::mint(tag, self.entry, data.len());
        let mut i: usize = 0;
        while i < data.len()
            invariant
                i <= data@.len(),
                data@.len() <= p@.cap,
                p@.tag == tag,
                p@.cap == old(self).spec_entry(),
                p@.bytes.len() == data@.len(),
                forall|m: int| 0 <= m < i ==> p@.bytes[m] == data@[m],
                forall|m: int| i <= m < data@.len() ==> p@.bytes[m] == 0u8,
            decreases data@.len() - i,
        {
            p.write_at(i, data[i]);
            i = i + 1;
        }
        proof {
            assert(p@.bytes =~= data@);
        }
        self.next_tag = self.next_tag + 1;
        let mut incoming: Vec<Packet> = Vec::new();
        core::mem::swap(&mut incoming, &mut self.incoming);
        incoming.push(p);
        core::mem::swap(&mut incoming, &mut self.incoming);
        proof {
            assert(self.spec_sent() =~= old(self).spec_sent());
        }
        Ok(())
    }

    /// Whether another tag can still be minted.
    pub closed spec fn tag_space_left(&self) -> bool {
        self.next_tag < u64::MAX
    }

    /// How many tags can still be minted.
    pub closed spec fn spec_tag_room(&self) -> int {
        u64::MAX - self.next_tag
    }

    /// How many frames the driver accepted for transmission so far.
    pub fn sent_count(&self) -> (r: usize)
        ensures
            r == self.spec_sent().len(),
    {
        self.sent.len()
    }

    /// Look at one frame the driver accepted.
    pub fn sent_at(&self, i: usize) -> (r: &Packet)
        requires
            i < self.spec_sent().len(),
        ensures
            r@ == self.spec_sent()[i as int],
    {
        &self.sent[i]
    }

    /// How many frames still wait to be received.
    pub fn incoming_count(&self) -> (r: usize)
        ensures
            r == self.spec_incoming().len(),
    {
        self.incoming.len()
    }
}

impl Nic for SimNic {
    closed spec fn spec_entry_size(&self) -> usize {
        self.entry
    }

    closed spec fn issued(&self) -> Set<u64> {
        self.given@
    }

    fn entry_size(&self) -> (r: usize) {
        self.entry
    }

    #[verifier::loop_isolation(false)]
    fn alloc_batch(&mut self, want: usize) -> (r: Vec<Packet>)
        ensures
            final(self).spec_entry() == old(self).spec_entry(),
            final(self).spec_incoming() == old(self).spec_incoming(),
            final(self).spec_sent() == old(self).spec_sent(),
            final(self).spec_accepts() == old(self).spec_accepts(),
            r@.len() == min(
                min(want as int, old(self).spec_quota() as int),
                old(self).spec_tag_room(),
            ),
            final(self).spec_quota() == old(self).spec_quota() - r@.len(),
    {
        proof {
            use_type_invariant(&*self);
        }
        let mut n = if want < self.quota {
            want
        } else {
            self.quota
        };
        let room = u64::MAX - self.next_tag;
        if room < n as u64 {
            n = room as usize;
        }
        proof {
            assert(n == min(
                min(want as int, old(self).spec_quota() as int),
                old(self).spec_tag_room(),
            ));
        }
        let mut out: Vec<Packet> = Vec::new();
        let mut i: usize = 0;
        while i < n
            invariant
                i <= n,
                n <= want,
                n <= old(self).quota,
                n as u64 <= u64::MAX - old(self).next_tag,
                self.entry == old(self).entry,
                self.quota == old(self).quota - i,
                self.incoming@ == old(self).incoming@,
                self.sent@ == old(self).sent@,
                self.accepts@ == old(self).accepts@,
                self.next_tag == old(self).next_tag + i,
                out@.len() == i,
                forall|t: u64|
                    self.given@.contains(t) <==> (old(self).given@.contains(t) || old(
                        self,
                    ).next_tag <= t < self.next_tag),
                forall|m: int|
                    0 <= m < i ==> {
                        &&& (#[trigger] out@[m])@.tag == old(self).next_tag + m
                        &&& out@[m]@.cap == old(self).entry
                        &&& out@[m]@.bytes.len() == old(self).entry
                        &&& (forall|k: int|
                            0 <= k < out@[m]@.bytes.len() ==> (#[trigger] out@[m]@.bytes[k]) == 0u8)
                    },
            decreases n - i,
        {
            let tag = self.next_tag;
            let p = Packet::mint(tag, self.entry, self.entry);
            self.next_tag = tag + 1;
            self.given = Ghost(self.given@.insert(tag));
            self.quota = self.quota - 1;
            out.push(p);
            i = i + 1;
        }
        proof {
            assert(self.spec_incoming() =~= old(self).spec_incoming());
            assert(self.spec_sent() =~= old(self).spec_sent());
        }
        out
    }

    #[verifier::loop_isolation(false)]
    fn rx_batch(&mut self, want: usize) -> (r: Vec<Packet>)
        ensures
            final(self).spec_entry() == old(self).spec_entry(),
            final(self).spec_quota() == old(self).spec_quota(),
            final(self).spec_sent() == old(self).spec_sent(),
            final(self).spec_accepts() == old(self).spec_accepts(),
            r@.len() == min(want as int, old(self).spec_incoming().len() as int),
            forall|i: int| 0 <= i < r@.len() ==> (#[trigger] r@[i])@ == old(self).spec_incoming()[i],
            final(self).spec_incoming() == old(self).spec_incoming().skip(r@.len() as int),
    {
        proof {
            use_type_invariant(&*self);
        }
        let n = if want < self.incoming.len() {
            want
        } else {
            self.incoming.len()
        };
        let mut inc: Vec<Packet> = Vec::new();
        core::mem::swap(&mut inc, &mut self.incoming);
        let ghost whole = inc@;
        let mut out: Vec<Packet> = Vec::new();
        let mut i: usize = 0;
        while i < n
            invariant
                i <= n,
                n <= want,
                n <= whole.len(),
                self.entry == old(self).entry,
                self.quota == old(self).quota,
                self.incoming@.len() == 0,
                self.sent@ == old(self).sent@,
                self.accepts@ == old(self).accepts@,
                self.next_tag == old(self).next_tag,
                inc@.len() == whole.len() - i,
                forall|m: int| 0 <= m < inc@.len() ==> (#[trigger] inc@[m]) == whole[m + i],
                out@.len() == i,
                forall|m: int| 0 <= m < i ==> (#[trigger] out@[m]) == whole[m],
                forall|m: int| 0 <= m < i ==> self.given@.contains((#[trigger] whole[m])@.tag),
                forall|t: u64|
                    self.given@.contains(t) ==> old(self).given@.contains(t) || exists|m: int|
                        0 <= m < i && t == (#[trigger] whole[m])@.tag,
                forall|t: u64| old(self).given@.contains(t) ==> self.given@.contains(t),
            decreases n - i,
        {
            let ghost prev = inc@;
            let p = inc.remove(0);
            proof {
                assert(p == whole[i as int]);
                assert forall|m: int| 0 <= m < inc@.len() implies (#[trigger] inc@[m]) == whole[m
                    + i + 1] by {
                    assert(inc@[m] == prev.subrange(1, prev.len() as int)[m]);
                    assert(inc@[m] == prev[m + 1]);
                }
            }
            self.given = Ghost(self.given@.insert(p@.tag));
            out.push(p);
            i = i + 1;
        }
        proof {
            assert forall|m: int| 0 <= m < inc@.len() implies !self.given@.contains(
                (#[trigger] inc@[m])@.tag,
            ) by {
                assert(inc@[m] == whole[m + n]);
                if self.given@.contains(whole[m + n]@.tag) {
                    assert(!old(self).given@.contains(whole[m + n]@.tag));
                    let w = choose|w: int|
                        0 <= w < n && whole[m + n]@.tag == (#[trigger] whole[w])@.tag;
                    assert(whole[w]@.tag != whole[m + n]@.tag);
                }
            }
        }
        core::mem::swap(&mut inc, &mut self.incoming);
        proof {
            assert(self.spec_incoming() =~= old(self).spec_incoming().skip(n as int));
            assert(self.spec_sent() =~= old(self).spec_sent());
        }
        out
    }

    #[verifier::loop_isolation(false)]
    fn tx_batch(&mut self, queue: &mut Vec<Packet>) -> (r: usize)
        ensures
            final(self).spec_entry() == old(self).spec_entry(),
            final(self).spec_quota() == old(self).spec_quota(),
            final(self).spec_incoming() == old(self).spec_incoming(),
            old(self).spec_accepts().len() == 0 ==> r == old(queue)@.len()
                && final(self).spec_accepts() == old(self).spec_accepts(),
            old(self).spec_accepts().len() > 0 ==> r == min(
                old(self).spec_accepts()[0] as int,
                old(queue)@.len() as int,
            ) && final(self).spec_accepts() == old(self).spec_accepts().skip(1),
            final(self).spec_sent() == old(self).spec_sent() + Seq::new(
                r as nat,
                |i: int| old(queue)@[i]@,
            ),
    {
        proof {
            use_type_invariant(&*self);
        }
        let cap = if self.accepts.len() > 0 {
            let mut accepts: Vec<usize> = Vec::new();
            core::mem::swap(&mut accepts, &mut self.accepts);
            let c = accepts.remove(0);
            core::mem::swap(&mut accepts, &mut self.accepts);
            proof {
                assert(self.accepts@ =~= old(self).accepts@.skip(1));
            }
            c
        } else {
            queue.len()
        };
        let n = if cap < queue.len() {
            cap
        } else {
            queue.len()
        };
        let ghost whole = queue@;
        let ghost acc_mid = self.accepts@;
        let mut sent: Vec<Packet> = Vec::new();
        core::mem::swap(&mut sent, &mut self.sent);
        let mut i: usize = 0;
        while i < n
            invariant
                i <= n,
                n <= whole.len(),
                self.entry == old(self).entry,
                self.quota == old(self).quota,
                self.next_tag == old(self).next_tag,
                self.given@ == old(self).given@,
                self.incoming@ == old(self).incoming@,
                self.accepts@ == acc_mid,
                self.sent@.len() == 0,
                queue@.len() == whole.len() - i,
                forall|m: int| 0 <= m < queue@.len() ==> (#[trigger] queue@[m]) == whole[m + i],
                sent@.len() == old(self).sent@.len() + i,
                forall|m: int|
                    0 <= m < old(self).sent@.len() ==> (#[trigger] sent@[m]) == old(self).sent@[m],
                forall|m: int|
                    0 <= m < i ==> (#[trigger] sent@[old(self).sent@.len() + m]) == whole[m],
            decreases n - i,
        {
            let ghost prev = queue@;
            let p = queue.remove(0);
            proof {
                assert forall|m: int| 0 <= m < queue@.len() implies (#[trigger] queue@[m]) == whole[
                    m + i + 1] by {
                    assert(queue@[m] == prev.subrange(1, prev.len() as int)[m]);
                    assert(queue@[m] == prev[m + 1]);
                }
            }
            sent.push(p);
            i = i + 1;
        }
        core::mem::swap(&mut sent, &mut self.sent);
        proof {
            assert(queue@ =~= whole.skip(n as int));
            assert(self.spec_incoming() =~= old(self).spec_incoming());
            let tail = Seq::new(n as nat, |i: int| whole[i]@);
            assert forall|m: int|
                0 <= m < self.sent@.len() implies (#[trigger] self.sent@[m])@ == (old(
                    self,
                ).spec_sent() + tail)[m] by {
                if m < old(self).sent@.len() {
                    assert(self.sent@[m] == old(self).sent@[m]);
                } else {
                    let w = m - old(self).sent@.len();
                    assert(self.sent@[old(self).sent@.len() + w] == whole[w]);
                }
            }
            assert(self.spec_sent() =~= old(self).spec_sent() + tail);
        }
        n
    }
}

} // verus!

verus! {

/// A receive callback that queues every handle: the whole batch is asked
/// to be retransmitted, store-and-forward style.
pub struct RetainAll {
}

impl Receiver for RetainAll {
    #[verifier::loop_isolation(false)]
    fn receivev(&mut self, batch: &mut Vec<RxUnit>) {
        let mut i: usize = 0;
        while i < batch.len()
            invariant
                i <= batch@.len(),
                batch@.len() == old(batch)@.len(),
                forall|m: int|
                    0 <= m < batch@.len() ==> (#[trigger] batch@[m]).same_carrier(old(batch)@[m]),
            decreases batch@.len() - i,
        {
            let u = &mut batch[i];
            let _ = u.queue();
            i = i + 1;
        }
    }
}

/// A receive callback that queues nothing: the whole batch is dropped
/// back to the pool.
pub struct RetainNone {
}

impl Receiver for RetainNone {
    fn receivev(&mut self, batch: &mut Vec<RxUnit>) {
        let _ = batch;
    }
}

/// A send callback that consumes every token with one fixed frame length,
/// writes a marker byte at the front of each frame that has room for one,
/// and submits the frames for transmission. Tokens whose requested length
/// exceeds the capacity are dropped.
pub struct FillSender {
    pub frame_len: usize,
    pub marker: u8,
}

impl Sender for FillSender {
    #[verifier::loop_isolation(false)]
    fn sendv(&mut self, batch: &mut Vec<TxUnit>) {
        let want = self.frame_len;
        let marker = self.marker;
        let mut i: usize = 0;
        while i < batch.len()
            invariant
                i <= batch@.len(),
                batch@.len() == old(batch)@.len(),
                forall|m: int|
                    0 <= m < batch@.len() ==> (#[trigger] batch@[m]).same_carrier(old(batch)@[m]),
            decreases batch@.len() - i,
        {
            let u = &mut batch[i];
            match u.take_token() {
                Some(t) => {
                    match t.consume(want) {
                        Ok(mut p) => {
                            if p.len() > 0 {
                                p.write_at(0, marker);
                            }
                            u.submit(p);
                        },
                        Err(_) => {},
                    }
                },
                None => {},
            }
            i = i + 1;
        }
    }
}

/// A send callback that queues every handle without touching the tokens:
/// the staged buffers go out as they stand.
pub struct QueueAllSender {
}

impl Sender for QueueAllSender {
    #[verifier::loop_isolation(false)]
    fn sendv(&mut self, batch: &mut Vec<TxUnit>) {
        let mut i: usize = 0;
        while i < batch.len()
            invariant
                i <= batch@.len(),
                batch@.len() == old(batch)@.len(),
                forall|m: int|
                    0 <= m < batch@.len() ==> (#[trigger] batch@[m]).same_carrier(old(batch)@[m]),
            decreases batch@.len() - i,
        {
            let u = &mut batch[i];
            let _ = u.queue();
            i = i + 1;
        }
    }
}

/// A send callback that does nothing: every staged buffer is dropped
/// back to the pool.
pub struct NullSender {
}

impl Sender for NullSender {
    fn sendv(&mut self, batch: &mut Vec<TxUnit>) {
        let _ = batch;
    }
}

} // verus!
