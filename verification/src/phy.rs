use vstd::prelude::*;
use vstd::math::min;
use crate::caps::{Checksums, Personality};
use crate::clock::now_millis;
use crate::error::Error;
use crate::nic::Nic;
use crate::stack::{Receiver, Sender};
use crate::packet::{Packet, PacketModel};
use crate::tags::{all_issued, distinct_tags, tag_disjoint, tags_of, uniform_cap};
use crate::units::{RxUnit, TxUnit};
use crate::BATCH_SIZE;

verus! {

/// The buffers a batch of receive records hands back to the ready queue,
/// record by record, in batch order.
pub open spec fn reclaim_all_rx(b: Seq<RxUnit>) -> Seq<PacketModel>
    decreases b.len(),
{
    if b.len() == 0 {
        Seq::empty()
    } else {
        b[0].reclaim() + reclaim_all_rx(b.skip(1))
    }
}

/// The buffers a batch of transmit records hands back to the ready queue,
/// record by record, in batch order.
pub open spec fn reclaim_all_tx(b: Seq<TxUnit>) -> Seq<PacketModel>
    decreases b.len(),
{
    if b.len() == 0 {
        Seq::empty()
    } else {
        b[0].reclaim() + reclaim_all_tx(b.skip(1))
    }
}


/// Reclaiming one more record extends the reclaimed run by that record's
/// contribution.
pub proof fn lemma_reclaim_all_tx_snoc(b: Seq<TxUnit>, j: int)
    requires
        0 <= j < b.len(),
    ensures
        reclaim_all_tx(b.take(j + 1)) == reclaim_all_tx(b.take(j)) + b[j].reclaim(),
    decreases j,
{
    if j == 0 {
        assert(b.take(1).skip(1) =~= Seq::<TxUnit>::empty());
        assert(b.take(0) =~= Seq::<TxUnit>::empty());
        assert(b.take(1)[0] == b[0]);
        assert(reclaim_all_tx(Seq::<TxUnit>::empty()) =~= Seq::<PacketModel>::empty());
        assert(reclaim_all_tx(b.take(1)) == b.take(1)[0].reclaim() + reclaim_all_tx(
            b.take(1).skip(1),
        ));
        assert(reclaim_all_tx(b.take(1)) =~= reclaim_all_tx(b.take(0)) + b[0].reclaim());
    } else {
        lemma_reclaim_all_tx_snoc(b.skip(1), j - 1);
        assert(b.take(j + 1).skip(1) =~= b.skip(1).take(j));
        assert(b.take(j).skip(1) =~= b.skip(1).take(j - 1));
        assert(b.skip(1)[j - 1] == b[j]);
        assert(reclaim_all_tx(b.take(j + 1)) =~= reclaim_all_tx(b.take(j)) + b[j].reclaim());
    }
}

/// At most one buffer comes back per transmit record.
pub proof fn lemma_reclaim_all_tx_len(b: Seq<TxUnit>)
    ensures
        reclaim_all_tx(b).len() <= b.len(),
    decreases b.len(),
{
    if b.len() > 0 {
        lemma_reclaim_all_tx_len(b.skip(1));
    }
}

/// Reclaiming one more record extends the reclaimed run by that record's
/// contribution.
pub proof fn lemma_reclaim_all_rx_snoc(b: Seq<RxUnit>, j: int)
    requires
        0 <= j < b.len(),
    ensures
        reclaim_all_rx(b.take(j + 1)) == reclaim_all_rx(b.take(j)) + b[j].reclaim(),
    decreases j,
{
    if j == 0 {
        assert(b.take(1).skip(1) =~= Seq::<RxUnit>::empty());
        assert(b.take(0) =~= Seq::<RxUnit>::empty());
        assert(b.take(1)[0] == b[0]);
        assert(reclaim_all_rx(Seq::<RxUnit>::empty()) =~= Seq::<PacketModel>::empty());
        assert(reclaim_all_rx(b.take(1)) == b.take(1)[0].reclaim() + reclaim_all_rx(
            b.take(1).skip(1),
        ));
        assert(reclaim_all_rx(b.take(1)) =~= reclaim_all_rx(b.take(0)) + b[0].reclaim());
    } else {
        lemma_reclaim_all_rx_snoc(b.skip(1), j - 1);
        assert(b.take(j + 1).skip(1) =~= b.skip(1).take(j));
        assert(b.take(j).skip(1) =~= b.skip(1).take(j - 1));
        assert(b.skip(1)[j - 1] == b[j]);
        assert(reclaim_all_rx(b.take(j + 1)) =~= reclaim_all_rx(b.take(j)) + b[j].reclaim());
    }
}

/// At most two buffers come back per receive record: the retained frame
/// and a submitted reply.
pub proof fn lemma_reclaim_all_rx_len(b: Seq<RxUnit>)
    ensures
        reclaim_all_rx(b).len() <= 2 * b.len(),
    decreases b.len(),
{
    if b.len() > 0 {
        lemma_reclaim_all_rx_len(b.skip(1));
    }
}

/// Zero-copy retransmit: a received buffer whose handle the callback
/// queued appears, by identity and not by value, among the buffers the
/// batch hands back to the ready queue.
pub proof fn lemma_zero_copy_retransmit(b: Seq<RxUnit>, i: int)
    requires
        0 <= i < b.len(),
        b[i].spec_handle().is_queued(),
    ensures
        reclaim_all_rx(b).contains(b[i].rx_model()),
    decreases b.len(),
{
    if i == 0 {
        assert(b[0].reclaim()[0] == b[0].rx_model());
        assert(reclaim_all_rx(b)[0] == b[0].rx_model());
    } else {
        lemma_zero_copy_retransmit(b.skip(1), i - 1);
        let tail = reclaim_all_rx(b.skip(1));
        let w = choose|w: int| 0 <= w < tail.len() && tail[w] == b.skip(1)[i - 1].rx_model();
        assert(b.skip(1)[i - 1] == b[i]);
        assert(reclaim_all_rx(b)[b[0].reclaim().len() + w] == b[i].rx_model());
    }
}

/// A pool-allocated, poll-mode packet source and sink, bridged to a
/// token-based per-packet device abstraction.
///
/// The bridge owns three FIFO queues of buffers: frames received from the
/// driver and not yet shown to the stack, free buffers available for
/// sending, and filled buffers ready for the driver's next batched
/// transmit. Every buffer sits in exactly one queue or in exactly one
/// outstanding exchange record; transfers are moves, never copies.
pub struct Phy<N: Nic> {
    nic: N,
    rx_queue: Vec<Packet>,
    tx_empty: Vec<Packet>,
    tx_queue: Vec<Packet>,
}

impl<N: Nic> Phy<N> {
    /// The inner pool/driver value.
    pub closed spec fn dev(&self) -> N {
        self.nic
    }

    /// The received-and-unconsumed queue, oldest frame first.
    pub closed spec fn rx_q(&self) -> Seq<PacketModel> {
        Seq::new(self.rx_queue@.len(), |i: int| self.rx_queue@[i]@)
    }

    /// The free-for-send queue.
    pub closed spec fn free_q(&self) -> Seq<PacketModel> {
        Seq::new(self.tx_empty@.len(), |i: int| self.tx_empty@[i]@)
    }

    /// The ready-to-transmit queue, next-to-send first.
    pub closed spec fn ready_q(&self) -> Seq<PacketModel> {
        Seq::new(self.tx_queue@.len(), |i: int| self.tx_queue@[i]@)
    }

    /// The pool's fixed buffer capacity.
    pub open spec fn entry(&self) -> usize {
        self.dev().spec_entry_size()
    }

    /// The identity tags of every buffer the bridge holds, queue by queue.
    pub open spec fn all_tags(&self) -> Seq<u64> {
        tags_of(self.rx_q()) + tags_of(self.free_q()) + tags_of(self.ready_q())
    }

    /// Well-formedness: no buffer is in two queues at once — tags are
    /// distinct within each queue and across queues — every held tag was
    /// issued by the pool/driver, and every buffer has the pool's fixed
    /// capacity.
    pub open spec fn wf(&self) -> bool {
        &&& distinct_tags(self.rx_q())
        &&& distinct_tags(self.free_q())
        &&& distinct_tags(self.ready_q())
        &&& tag_disjoint(self.rx_q(), self.free_q())
        &&& tag_disjoint(self.rx_q(), self.ready_q())
        &&& tag_disjoint(self.free_q(), self.ready_q())
        &&& all_issued(self.rx_q(), self.dev().issued())
        &&& all_issued(self.free_q(), self.dev().issued())
        &&& all_issued(self.ready_q(), self.dev().issued())
        &&& uniform_cap(self.rx_q(), self.entry() as nat)
        &&& uniform_cap(self.free_q(), self.entry() as nat)
        &&& uniform_cap(self.ready_q(), self.entry() as nat)
    }

    /// Ownership uniqueness: a well-formed bridge never holds the same
    /// buffer tag twice, in whatever pair of places.
    pub proof fn lemma_ownership_unique(&self)
        requires
            self.wf(),
        ensures
            forall|i: int, j: int|
                0 <= i < j < self.all_tags().len() ==> self.all_tags()[i] != self.all_tags()[j],
    {
        let rx = tags_of(self.rx_q());
        let free = tags_of(self.free_q());
        let ready = tags_of(self.ready_q());
        assert forall|i: int, j: int|
            0 <= i < j < self.all_tags().len() implies self.all_tags()[i] != self.all_tags()[j] by {
            let t = self.all_tags();
            assert(t[i] == (rx + free + ready)[i]);
            assert(t[j] == (rx + free + ready)[j]);
        }
    }

    /// The combined tag sequence holds a tag exactly when one of the
    /// three queues holds a buffer with it.
    pub proof fn lemma_all_tags_split(&self, t: u64)
        ensures
            self.all_tags().contains(t) <==> ((exists|i: int|
                0 <= i < self.rx_q().len() && (#[trigger] self.rx_q()[i]).tag == t) || (
            exists|i: int|
                0 <= i < self.free_q().len() && (#[trigger] self.free_q()[i]).tag == t) || (
            exists|i: int|
                0 <= i < self.ready_q().len() && (#[trigger] self.ready_q()[i]).tag == t)),
    {
        let rx = tags_of(self.rx_q());
        let free = tags_of(self.free_q());
        let ready = tags_of(self.ready_q());
        if self.all_tags().contains(t) {
            let w = choose|w: int| 0 <= w < self.all_tags().len() && self.all_tags()[w] == t;
            assert(self.all_tags()[w] == (rx + free + ready)[w]);
            if w < rx.len() {
                assert(self.rx_q()[w].tag == t);
            } else if w < rx.len() + free.len() {
                assert(self.free_q()[w - rx.len()].tag == t);
            } else {
                assert(self.ready_q()[w - rx.len() - free.len()].tag == t);
            }
        }
        if exists|i: int| 0 <= i < self.rx_q().len() && (#[trigger] self.rx_q()[i]).tag == t {
            let i = choose|i: int| 0 <= i < self.rx_q().len() && (#[trigger] self.rx_q()[i]).tag
                == t;
            assert(self.all_tags()[i] == (rx + free + ready)[i]);
            assert(self.all_tags().contains(t));
        }
        if exists|i: int| 0 <= i < self.free_q().len() && (#[trigger] self.free_q()[i]).tag == t {
            let i = choose|i: int|
                0 <= i < self.free_q().len() && (#[trigger] self.free_q()[i]).tag == t;
            assert(self.all_tags()[rx.len() + i] == (rx + free + ready)[rx.len() + i]);
            assert(self.all_tags().contains(t));
        }
        if exists|i: int| 0 <= i < self.ready_q().len() && (#[trigger] self.ready_q()[i]).tag
            == t {
            let i = choose|i: int|
                0 <= i < self.ready_q().len() && (#[trigger] self.ready_q()[i]).tag == t;
            assert(self.all_tags()[rx.len() + free.len() + i] == (rx + free + ready)[rx.len()
                + free.len() + i]);
            assert(self.all_tags().contains(t));
        }
    }

    /// A tag distinct from every buffer's in all three queues is not held
    /// by the bridge.
    pub proof fn lemma_tag_absent(&self, t: u64)
        requires
            forall|i: int| 0 <= i < self.rx_q().len() ==> (#[trigger] self.rx_q()[i]).tag != t,
            forall|i: int| 0 <= i < self.free_q().len() ==> (#[trigger] self.free_q()[i]).tag != t,
            forall|i: int| 0 <= i < self.ready_q().len() ==> (#[trigger] self.ready_q()[i]).tag != t,
        ensures
            !self.all_tags().contains(t),
    {
        self.lemma_all_tags_split(t);
    }

    /// Make a bridge over the given pool/driver, with all queues empty.
    pub fn new(nic: N) -> (r: Phy<N>)
        ensures
            r.wf(),
            r.dev() == nic,
            r.rx_q().len() == 0,
            r.free_q().len() == 0,
            r.ready_q().len() == 0,
    {
        Phy { nic, rx_queue: Vec::new(), tx_empty: Vec::new(), tx_queue: Vec::new() }
    }

    /// Inspect the inner pool/driver, e.g. to gather stats or link
    /// metadata.
    pub fn ixy(&self) -> (r: &N)
        ensures
            *r == self.dev(),
    {
        &self.nic
    }

    /// Give the inner pool/driver back, dropping the queued buffers.
    pub fn into_inner(self) -> (r: N)
        ensures
            r == self.dev(),
    {
        self.nic
    }

    /// The device description the stack queries once at setup: the maximum
    /// transmission unit is the pool's fixed buffer capacity, the burst
    /// size is left unbounded, and no checksum offload is claimed.
    pub fn personality(&self) -> (r: Personality)
        ensures
            r.max_transmission_unit == self.entry(),
            r.max_burst_size is None,
            r.checksums == Checksums::spec_no_support(),
    {
        Personality {
            max_transmission_unit: self.nic.entry_size(),
            max_burst_size: None,
            checksums: Checksums::no_support(),
        }
    }

    /// Hand the entire ready queue to the driver's batched transmit.
    ///
    /// The driver accepts some prefix and the accepted count is returned;
    /// buffers not accepted stay at the front, order preserved, for the
    /// next flush.
    pub fn flush(&mut self) -> (r: usize)
        requires
            old(self).wf(),
        ensures
            final(self).wf(),
            r <= old(self).ready_q().len(),
            final(self).ready_q() == old(self).ready_q().skip(r as int),
            final(self).rx_q() == old(self).rx_q(),
            final(self).free_q() == old(self).free_q(),
            final(self).entry() == old(self).entry(),
    {
        let r = self.nic.tx_batch(&mut self.tx_queue);
        proof {
            assert(self.ready_q() =~= old(self).ready_q().skip(r as int));
            assert(self.rx_q() =~= old(self).rx_q());
            assert(self.free_q() =~= old(self).free_q());
        }
        r
    }

    /// When the received queue has run dry, poll the driver for the next
    /// batch; frames arrive oldest first, in time order. A nonempty queue
    /// means no driver call at all; an empty one gains at most one batch.
    fn refill_rx(&mut self)
        requires
            old(self).wf(),
        ensures
            final(self).wf(),
            final(self).free_q() == old(self).free_q(),
            final(self).ready_q() == old(self).ready_q(),
            final(self).entry() == old(self).entry(),
            old(self).rx_q().len() > 0 ==> final(self).rx_q() == old(self).rx_q()
                && final(self).dev() == old(self).dev(),
            old(self).rx_q().len() == 0 ==> final(self).rx_q().len() <= BATCH_SIZE,
    {
        if self.rx_queue.len() == 0 {
            let mut batch = self.nic.rx_batch(BATCH_SIZE);
            self.rx_queue.append(&mut batch);
            proof {
                assert(self.free_q() =~= old(self).free_q());
                assert(self.ready_q() =~= old(self).ready_q());
            }
        }
    }

    /// When the free queue has run dry, ask the pool for a fresh batch;
    /// getting fewer buffers than asked, down to none, is not an error.
    /// A nonempty queue means no pool call at all; an empty one gains at
    /// most one batch of full-length buffers.
    fn refill_free(&mut self)
        requires
            old(self).wf(),
        ensures
            final(self).wf(),
            final(self).rx_q() == old(self).rx_q(),
            final(self).ready_q() == old(self).ready_q(),
            final(self).entry() == old(self).entry(),
            old(self).free_q().len() > 0 ==> final(self).free_q() == old(self).free_q()
                && final(self).dev() == old(self).dev(),
            old(self).free_q().len() == 0 ==> final(self).free_q().len() <= BATCH_SIZE
                && (forall|i: int|
                0 <= i < final(self).free_q().len() ==> (#[trigger] final(self).free_q()[
                i]).bytes.len() == final(self).free_q()[i].cap),
    {
        if self.tx_empty.len() == 0 {
            let mut batch = self.nic.alloc_batch(BATCH_SIZE);
            self.tx_empty.append(&mut batch);
            proof {
                assert(self.rx_q() =~= old(self).rx_q());
                assert(self.ready_q() =~= old(self).ready_q());
            }
        }
    }

    /// What a batch of transmit records must look like for the bridge to
    /// reclaim it: record tags pairwise distinct, held by no queue, issued
    /// by this pool/driver, and capacities the pool's fixed size.
    pub open spec fn accepts_tx(&self, b: Seq<TxUnit>) -> bool {
        &&& forall|i: int, j: int|
            0 <= i < j < b.len() ==> (#[trigger] b[i].unit_tag()) != (#[trigger] b[j].unit_tag())
        &&& forall|i: int|
            0 <= i < b.len() ==> !self.all_tags().contains((#[trigger] b[i]).unit_tag())
        &&& forall|i: int|
            0 <= i < b.len() ==> self.dev().issued().contains((#[trigger] b[i]).unit_tag())
        &&& forall|i: int| 0 <= i < b.len() ==> (#[trigger] b[i]).unit_cap() == self.entry() as nat
    }

    /// A batch stays acceptable under any callback: only the records'
    /// carried identities matter, and a callback preserves those.
    pub proof fn lemma_accepts_tx_same(&self, a: Seq<TxUnit>, b: Seq<TxUnit>)
        requires
            self.accepts_tx(a),
            b.len() == a.len(),
            forall|i: int| 0 <= i < a.len() ==> (#[trigger] b[i]).same_carrier(a[i]),
        ensures
            self.accepts_tx(b),
    {
    }

    /// Pop up to `min(max, BATCH_SIZE)` free buffers — as far as the free
    /// queue reaches — and stage each as a transmit exchange record with a
    /// freshly stamped handle.
    #[verifier::loop_isolation(false)]
    pub fn stage_tx(&mut self, max: usize, now: i64) -> (r: Vec<TxUnit>)
        requires
            old(self).wf(),
        ensures
            final(self).wf(),
            r@.len() == min(
                min(max as int, BATCH_SIZE as int),
                old(self).free_q().len() as int,
            ),
            final(self).free_q() == old(self).free_q().skip(r@.len() as int),
            final(self).rx_q() == old(self).rx_q(),
            final(self).ready_q() == old(self).ready_q(),
            final(self).entry() == old(self).entry(),
            final(self).dev() == old(self).dev(),
            forall|i: int|
                0 <= i < r@.len() ==> {
                    &&& (#[trigger] r@[i]).token_model() == Some(old(self).free_q()[i])
                    &&& r@[i].sent_model() is None
                    &&& !r@[i].spec_handle().is_queued()
                    &&& r@[i].spec_handle().stamp() == now
                    &&& r@[i].unit_tag() == old(self).free_q()[i].tag
                    &&& r@[i].unit_cap() == old(self).free_q()[i].cap
                },
            final(self).accepts_tx(r@),
    {
        let mut k = if max < BATCH_SIZE {
            max
        } else {
            BATCH_SIZE
        };
        if k > self.tx_empty.len() {
            k = self.tx_empty.len();
        }
        let mut units: Vec<TxUnit> = Vec::new();
        let mut i: usize = 0;
        while i < k
            invariant
                i <= k,
                units@.len() == i,
                self.tx_empty@.len() == old(self).free_q().len() - i,
                forall|m: int|
                    0 <= m < self.tx_empty@.len() ==> (#[trigger] self.tx_empty@[m])@ == old(
                        self,
                    ).free_q()[m + i],
                self.rx_q() == old(self).rx_q(),
                self.ready_q() == old(self).ready_q(),
                self.dev() == old(self).dev(),
                forall|m: int|
                    0 <= m < i ==> {
                        &&& (#[trigger] units@[m]).token_model() == Some(old(self).free_q()[m])
                        &&& units@[m].sent_model() is None
                        &&& !units@[m].spec_handle().is_queued()
                        &&& units@[m].spec_handle().stamp() == now
                        &&& units@[m].unit_tag() == old(self).free_q()[m].tag
                        &&& units@[m].unit_cap() == old(self).free_q()[m].cap
                    },
            decreases k - i,
        {
            let ghost prev = self.tx_empty@;
            let p = self.tx_empty.remove(0);
            proof {
                assert(p == prev[0]);
                assert(p@ == old(self).free_q()[i as int]);
                assert forall|m: int|
                    0 <= m < self.tx_empty@.len() implies (#[trigger] self.tx_empty@[m])@ == old(
                        self,
                    ).free_q()[m + i + 1] by {
                    assert(self.tx_empty@[m] == prev.subrange(1, prev.len() as int)[m]);
                    assert(self.tx_empty@[m] == prev[m + 1]);
                }
            }
            units.push(TxUnit::stage(p, now));
            i = i + 1;
        }
        proof {
            assert(self.free_q() =~= old(self).free_q().skip(k as int));
            assert forall|m: int|
                0 <= m < units@.len() implies !self.all_tags().contains(
                (#[trigger] units@[m]).unit_tag(),
            ) by {
                let t = units@[m].unit_tag();
                assert forall|x: int|
                    0 <= x < self.free_q().len() implies (#[trigger] self.free_q()[x]).tag
                    != t by {
                    assert(self.free_q()[x].tag == old(self).free_q()[x + k].tag);
                }
                self.lemma_tag_absent(t);
            }
        }
        units
    }

    /// What a batch of receive records must look like for the bridge to
    /// reclaim it: received and companion tags pairwise distinct — also
    /// across the two roles — held by no queue, issued by this pool/driver,
    /// and capacities the pool's fixed size.
    pub open spec fn accepts_rx(&self, b: Seq<RxUnit>) -> bool {
        &&& forall|i: int, j: int|
            0 <= i < j < b.len() ==> (#[trigger] b[i].rx_model()).tag
                != (#[trigger] b[j].rx_model()).tag
        &&& forall|i: int, j: int|
            0 <= i < j < b.len() ==> (#[trigger] b[i].companion_tag()) != (
            #[trigger] b[j].companion_tag())
        &&& forall|i: int, j: int|
            0 <= i < b.len() && 0 <= j < b.len() ==> (#[trigger] b[i].rx_model()).tag != (
            #[trigger] b[j].companion_tag())
        &&& forall|i: int|
            0 <= i < b.len() ==> !self.all_tags().contains((#[trigger] b[i]).rx_model().tag)
        &&& forall|i: int|
            0 <= i < b.len() ==> !self.all_tags().contains((#[trigger] b[i]).companion_tag())
        &&& forall|i: int|
            0 <= i < b.len() ==> self.dev().issued().contains((#[trigger] b[i]).rx_model().tag)
        &&& forall|i: int|
            0 <= i < b.len() ==> self.dev().issued().contains((#[trigger] b[i]).companion_tag())
        &&& forall|i: int|
            0 <= i < b.len() ==> (#[trigger] b[i]).rx_model().cap == self.entry() as nat
        &&& forall|i: int|
            0 <= i < b.len() ==> (#[trigger] b[i]).companion_cap() == self.entry() as nat
    }

    /// A batch stays acceptable under any callback: only the records'
    /// carried identities matter, and a callback preserves those.
    pub proof fn lemma_accepts_rx_same(&self, a: Seq<RxUnit>, b: Seq<RxUnit>)
        requires
            self.accepts_rx(a),
            b.len() == a.len(),
            forall|i: int| 0 <= i < a.len() ==> (#[trigger] b[i]).same_carrier(a[i]),
        ensures
            self.accepts_rx(b),
    {
    }

    /// Pop up to `min(max, BATCH_SIZE)` received frames — as far as both
    /// the received queue and the free queue reach — and stage each,
    /// paired with a free companion buffer, as a receive exchange record
    /// with a freshly stamped handle.
    #[verifier::loop_isolation(false)]
    pub fn stage_rx(&mut self, max: usize, now: i64) -> (r: Vec<RxUnit>)
        requires
            old(self).wf(),
        ensures
            final(self).wf(),
            r@.len() == min(
                min(max as int, BATCH_SIZE as int),
                min(old(self).rx_q().len() as int, old(self).free_q().len() as int),
            ),
            final(self).rx_q() == old(self).rx_q().skip(r@.len() as int),
            final(self).free_q() == old(self).free_q().skip(r@.len() as int),
            final(self).ready_q() == old(self).ready_q(),
            final(self).entry() == old(self).entry(),
            final(self).dev() == old(self).dev(),
            forall|i: int|
                0 <= i < r@.len() ==> {
                    &&& (#[trigger] r@[i]).rx_model() == old(self).rx_q()[i]
                    &&& r@[i].companion_model() == Some(old(self).free_q()[i])
                    &&& r@[i].resp_model() is None
                    &&& !r@[i].spec_handle().is_queued()
                    &&& r@[i].spec_handle().stamp() == now
                    &&& r@[i].companion_tag() == old(self).free_q()[i].tag
                    &&& r@[i].companion_cap() == old(self).free_q()[i].cap
                },
            final(self).accepts_rx(r@),
    {
        let mut k = if max < BATCH_SIZE {
            max
        } else {
            BATCH_SIZE
        };
        if k > self.rx_queue.len() {
            k = self.rx_queue.len();
        }
        if k > self.tx_empty.len() {
            k = self.tx_empty.len();
        }
        let mut units: Vec<RxUnit> = Vec::new();
        let mut i: usize = 0;
        while i < k
            invariant
                i <= k,
                units@.len() == i,
                self.rx_queue@.len() == old(self).rx_q().len() - i,
                self.tx_empty@.len() == old(self).free_q().len() - i,
                forall|m: int|
                    0 <= m < self.rx_queue@.len() ==> (#[trigger] self.rx_queue@[m])@ == old(
                        self,
                    ).rx_q()[m + i],
                forall|m: int|
                    0 <= m < self.tx_empty@.len() ==> (#[trigger] self.tx_empty@[m])@ == old(
                        self,
                    ).free_q()[m + i],
                self.ready_q() == old(self).ready_q(),
                self.dev() == old(self).dev(),
                forall|m: int|
                    0 <= m < i ==> {
                        &&& (#[trigger] units@[m]).rx_model() == old(self).rx_q()[m]
                        &&& units@[m].companion_model() == Some(old(self).free_q()[m])
                        &&& units@[m].resp_model() is None
                        &&& !units@[m].spec_handle().is_queued()
                        &&& units@[m].spec_handle().stamp() == now
                        &&& units@[m].companion_tag() == old(self).free_q()[m].tag
                        &&& units@[m].companion_cap() == old(self).free_q()[m].cap
                    },
            decreases k - i,
        {
            let ghost prevr = self.rx_queue@;
            let ghost prevf = self.tx_empty@;
            let p = self.rx_queue.remove(0);
            let c = self.tx_empty.remove(0);
            proof {
                assert(p == prevr[0]);
                assert(c == prevf[0]);
                assert(p@ == old(self).rx_q()[i as int]);
                assert(c@ == old(self).free_q()[i as int]);
                assert forall|m: int|
                    0 <= m < self.rx_queue@.len() implies (#[trigger] self.rx_queue@[m])@ == old(
                        self,
                    ).rx_q()[m + i + 1] by {
                    assert(self.rx_queue@[m] == prevr.subrange(1, prevr.len() as int)[m]);
                    assert(self.rx_queue@[m] == prevr[m + 1]);
                }
                assert forall|m: int|
                    0 <= m < self.tx_empty@.len() implies (#[trigger] self.tx_empty@[m])@ == old(
                        self,
                    ).free_q()[m + i + 1] by {
                    assert(self.tx_empty@[m] == prevf.subrange(1, prevf.len() as int)[m]);
                    assert(self.tx_empty@[m] == prevf[m + 1]);
                }
            }
            units.push(RxUnit::stage(p, c, now));
            i = i + 1;
        }
        proof {
            assert(self.rx_q() =~= old(self).rx_q().skip(k as int));
            assert(self.free_q() =~= old(self).free_q().skip(k as int));
            assert forall|m: int|
                0 <= m < units@.len() implies !self.all_tags().contains(
                (#[trigger] units@[m]).rx_model().tag,
            ) && !self.all_tags().contains(units@[m].companion_tag()) by {
                let tr = units@[m].rx_model().tag;
                let tc = units@[m].companion_tag();
                assert forall|x: int|
                    0 <= x < self.rx_q().len() implies (#[trigger] self.rx_q()[x]).tag != tr && self.rx_q()[x].tag != tc by {
                    assert(self.rx_q()[x].tag == old(self).rx_q()[x + k].tag);
                }
                assert forall|x: int|
                    0 <= x < self.free_q().len() implies (#[trigger] self.free_q()[x]).tag != tr && self.free_q()[x].tag != tc by {
                    assert(self.free_q()[x].tag == old(self).free_q()[x + k].tag);
                }
                self.lemma_tag_absent(tr);
                self.lemma_tag_absent(tc);
            }
        }
        units
    }

    /// Append one buffer to the back of the ready queue; the tag must be
    /// fresh to the bridge, issued, and of the pool's fixed capacity.
    fn push_ready(&mut self, p: Packet)
        requires
            old(self).wf(),
            !old(self).all_tags().contains(p@.tag),
            old(self).dev().issued().contains(p@.tag),
            p@.cap == old(self).entry() as nat,
        ensures
            final(self).wf(),
            final(self).ready_q() == old(self).ready_q() + seq![p@],
            final(self).rx_q() == old(self).rx_q(),
            final(self).free_q() == old(self).free_q(),
            final(self).dev() == old(self).dev(),
    {
        self.tx_queue.push(p);
        proof {
            assert(self.ready_q() =~= old(self).ready_q() + seq![p@]);
            assert(self.rx_q() =~= old(self).rx_q());
            assert(self.free_q() =~= old(self).free_q());
            old(self).lemma_all_tags_split(p@.tag);
        }
    }

    /// Reclaim a batch of transmit records the callback has processed:
    /// submitted buffers — and buffers whose handle was queued without the
    /// token being taken — move to the back of the ready queue in batch
    /// order; everything else is dropped back to the pool. Returns how many
    /// buffers were queued.
    #[verifier::loop_isolation(false)]
    pub fn absorb_tx(&mut self, batch: Vec<TxUnit>) -> (r: usize)
        requires
            old(self).wf(),
            old(self).accepts_tx(batch@),
        ensures
            final(self).wf(),
            final(self).ready_q() == old(self).ready_q() + reclaim_all_tx(batch@),
            final(self).rx_q() == old(self).rx_q(),
            final(self).free_q() == old(self).free_q(),
            final(self).entry() == old(self).entry(),
            final(self).dev() == old(self).dev(),
            r == reclaim_all_tx(batch@).len(),
    {
        let ghost whole = batch@;
        let mut batch = batch;
        let total = batch.len();
        let mut count: usize = 0;
        let mut j: usize = 0;
        proof {
            assert(whole.take(0) =~= Seq::<TxUnit>::empty());
            assert(self.ready_q() =~= old(self).ready_q() + reclaim_all_tx(whole.take(0)));
        }
        while batch.len() > 0
            invariant
                whole.len() == total,
                j + batch@.len() == whole.len(),
                count <= j,
                batch@ == whole.skip(j as int),
                count == reclaim_all_tx(whole.take(j as int)).len(),
                self.ready_q() == old(self).ready_q() + reclaim_all_tx(whole.take(j as int)),
                self.rx_q() == old(self).rx_q(),
                self.free_q() == old(self).free_q(),
                self.dev() == old(self).dev(),
                self.wf(),
                forall|x: int|
                    old(self).ready_q().len() <= x < self.ready_q().len() ==> exists|m: int|
                        0 <= m < j && (#[trigger] self.ready_q()[x]).tag == whole[m].unit_tag(),
            decreases batch@.len(),
        {
            let ghost prevb = batch@;
            let ghost prev_ready = self.ready_q();
            let u = batch.remove(0);
            proof {
                assert(u == whole[j as int]);
                assert forall|m: int|
                    0 <= m < batch@.len() implies (#[trigger] batch@[m]) == whole.skip(
                    j as int + 1,
                )[m] by {
                    assert(batch@[m] == prevb.subrange(1, prevb.len() as int)[m]);
                    assert(batch@[m] == prevb[m + 1]);
                }
                assert(batch@ =~= whole.skip(j as int + 1));
                lemma_reclaim_all_tx_snoc(whole, j as int);
            }
            let (h, token, sent) = u.into_parts();
            let reclaimed: Option<Packet> = match sent {
                Some(p) => Some(p),
                None => match token {
                    Some(t) => if h.queued() {
                        Some(t.into_packet())
                    } else {
                        None
                    },
                    None => None,
                },
            };
            match reclaimed {
                Some(p) => {
                    proof {
                        assert(p@.tag == u.unit_tag());
                        assert(u.reclaim() =~= seq![p@]);
                        let t = u.unit_tag();
                        old(self).lemma_all_tags_split(t);
                        assert forall|x: int|
                            0 <= x < self.rx_q().len() implies (#[trigger] self.rx_q()[x]).tag
                            != t by {
                            assert(self.rx_q()[x] == old(self).rx_q()[x]);
                        }
                        assert forall|x: int|
                            0 <= x < self.free_q().len() implies (#[trigger] self.free_q()[x]).tag
                            != t by {
                            assert(self.free_q()[x] == old(self).free_q()[x]);
                        }
                        assert forall|x: int|
                            0 <= x < self.ready_q().len() implies (
                            #[trigger] self.ready_q()[x]).tag != t by {
                            if x < old(self).ready_q().len() {
                                assert(self.ready_q()[x] == old(self).ready_q()[x]);
                            } else {
                                let m = choose|m: int|
                                    0 <= m < j && self.ready_q()[x].tag == whole[m].unit_tag();
                                assert(whole[m].unit_tag() != whole[j as int].unit_tag());
                            }
                        }
                        self.lemma_tag_absent(t);
                    }
                    self.push_ready(p);
                    proof {
                        assert(self.ready_q() =~= prev_ready + u.reclaim());
                    }
                    count = count + 1;
                },
                None => {
                    proof {
                        assert(u.reclaim() =~= Seq::<PacketModel>::empty());
                        assert(self.ready_q() =~= prev_ready + u.reclaim());
                    }
                },
            }
            j = j + 1;
            proof {
                assert(self.ready_q() =~= old(self).ready_q() + reclaim_all_tx(
                    whole.take(j as int),
                ));
            }
        }
        proof {
            assert(whole.take(j as int) =~= whole);
        }
        count
    }

    /// Reclaim a batch of receive records the callback has processed: each
    /// record's received buffer moves — by identity, no copy — to the back
    /// of the ready queue when its handle was queued, followed by a
    /// submitted reply; everything else is dropped back to the pool.
    /// Returns how many buffers were queued.
    #[verifier::loop_isolation(false)]
    pub fn absorb_rx(&mut self, batch: Vec<RxUnit>) -> (r: usize)
        requires
            old(self).wf(),
            old(self).accepts_rx(batch@),
            batch@.len() <= BATCH_SIZE,
        ensures
            final(self).wf(),
            final(self).ready_q() == old(self).ready_q() + reclaim_all_rx(batch@),
            final(self).rx_q() == old(self).rx_q(),
            final(self).free_q() == old(self).free_q(),
            final(self).entry() == old(self).entry(),
            final(self).dev() == old(self).dev(),
            r == reclaim_all_rx(batch@).len(),
    {
        let ghost whole = batch@;
        let mut batch = batch;
        let mut count: usize = 0;
        let mut j: usize = 0;
        proof {
            assert(whole.take(0) =~= Seq::<RxUnit>::empty());
            assert(self.ready_q() =~= old(self).ready_q() + reclaim_all_rx(whole.take(0)));
        }
        while batch.len() > 0
            invariant
                j + batch@.len() == whole.len(),
                count <= 2 * j,
                batch@ == whole.skip(j as int),
                count == reclaim_all_rx(whole.take(j as int)).len(),
                self.ready_q() == old(self).ready_q() + reclaim_all_rx(whole.take(j as int)),
                self.rx_q() == old(self).rx_q(),
                self.free_q() == old(self).free_q(),
                self.dev() == old(self).dev(),
                self.wf(),
                forall|x: int|
                    old(self).ready_q().len() <= x < self.ready_q().len() ==> exists|m: int|
                        0 <= m < j && ((#[trigger] self.ready_q()[x]).tag == whole[m].rx_model().tag
                            || self.ready_q()[x].tag == whole[m].companion_tag()),
            decreases batch@.len(),
        {
            let ghost prevb = batch@;
            let ghost prev_ready = self.ready_q();
            let u = batch.remove(0);
            proof {
                assert(u == whole[j as int]);
                assert forall|m: int|
                    0 <= m < batch@.len() implies (#[trigger] batch@[m]) == whole.skip(
                    j as int + 1,
                )[m] by {
                    assert(batch@[m] == prevb.subrange(1, prevb.len() as int)[m]);
                    assert(batch@[m] == prevb[m + 1]);
                }
                assert(batch@ =~= whole.skip(j as int + 1));
                lemma_reclaim_all_rx_snoc(whole, j as int);
            }
            let (h, packet, ctoken, resp) = u.into_parts();
            let queued = h.queued();
            if queued {
                proof {
                    let t = u.rx_model().tag;
                    assert(packet@.tag == t);
                    old(self).lemma_all_tags_split(t);
                    assert forall|x: int|
                        0 <= x < self.rx_q().len() implies (#[trigger] self.rx_q()[x]).tag
                        != t by {
                        assert(self.rx_q()[x] == old(self).rx_q()[x]);
                    }
                    assert forall|x: int|
                        0 <= x < self.free_q().len() implies (#[trigger] self.free_q()[x]).tag
                        != t by {
                        assert(self.free_q()[x] == old(self).free_q()[x]);
                    }
                    assert forall|x: int|
                        0 <= x < self.ready_q().len() implies (#[trigger] self.ready_q()[x]).tag
                        != t by {
                        if x < old(self).ready_q().len() {
                            assert(self.ready_q()[x] == old(self).ready_q()[x]);
                        } else {
                            let m = choose|m: int|
                                0 <= m < j && ((#[trigger] self.ready_q()[x]).tag == whole[
                                    m].rx_model().tag || self.ready_q()[x].tag == whole[
                                    m].companion_tag());
                            assert(whole[m].rx_model().tag != whole[j as int].rx_model().tag
                                || true);
                        }
                    }
                    self.lemma_tag_absent(t);
                }
                self.push_ready(packet);
                count = count + 1;
            }
            let ghost mid_ready = self.ready_q();
            match resp {
                Some(p) => {
                    proof {
                        let t = u.companion_tag();
                        assert(p@.tag == t);
                        old(self).lemma_all_tags_split(t);
                        assert forall|x: int|
                            0 <= x < self.rx_q().len() implies (#[trigger] self.rx_q()[x]).tag
                            != t by {
                            assert(self.rx_q()[x] == old(self).rx_q()[x]);
                        }
                        assert forall|x: int|
                            0 <= x < self.free_q().len() implies (#[trigger] self.free_q()[x]).tag
                            != t by {
                            assert(self.free_q()[x] == old(self).free_q()[x]);
                        }
                        assert forall|x: int|
                            0 <= x < self.ready_q().len() implies (
                            #[trigger] self.ready_q()[x]).tag != t by {
                            if x < old(self).ready_q().len() {
                                assert(self.ready_q()[x] == old(self).ready_q()[x]);
                            } else if x < prev_ready.len() {
                                assert(self.ready_q()[x].tag == prev_ready[x].tag);
                                let m = choose|m: int|
                                    0 <= m < j && ((#[trigger] prev_ready[x]).tag == whole[
                                        m].rx_model().tag || prev_ready[x].tag == whole[
                                        m].companion_tag());
                                assert(whole[m].companion_tag() != whole[j as int].companion_tag()
                                    || true);
                            } else {
                                assert(self.ready_q()[x].tag == whole[j as int].rx_model().tag);
                            }
                        }
                        self.lemma_tag_absent(t);
                    }
                    self.push_ready(p);
                    count = count + 1;
                },
                None => {},
            }
            proof {
                assert(self.ready_q() =~= prev_ready + u.reclaim());
            }
            j = j + 1;
            proof {
                assert(self.ready_q() =~= old(self).ready_q() + reclaim_all_rx(
                    whole.take(j as int),
                ));
                lemma_reclaim_all_rx_len(whole.take(j as int));
            }
        }
        proof {
            assert(whole.take(j as int) =~= whole);
        }
        count
    }

    /// The capability a transmit token's hand-back maps to: append one
    /// buffer to the ready queue, and once the queue has reached
    /// `BATCH_SIZE` trigger a flush instead of merely buffering. Returns
    /// how many buffers the flush, if any, pushed out to the driver.
    pub fn enqueue(&mut self, packet: Packet) -> (r: usize)
        requires
            old(self).wf(),
            !old(self).all_tags().contains(packet@.tag),
            old(self).dev().issued().contains(packet@.tag),
            packet@.cap == old(self).entry() as nat,
        ensures
            final(self).wf(),
            r <= old(self).ready_q().len() + 1,
            final(self).ready_q() == (old(self).ready_q() + seq![packet@]).skip(r as int),
            final(self).rx_q() == old(self).rx_q(),
            final(self).free_q() == old(self).free_q(),
            final(self).entry() == old(self).entry(),
            old(self).ready_q().len() + 1 < BATCH_SIZE ==> r == 0,
    {
        self.push_ready(packet);
        if self.tx_queue.len() >= BATCH_SIZE {
            self.flush()
        } else {
            proof {
                assert((old(self).ready_q() + seq![packet@]).skip(0) =~= old(self).ready_q()
                    + seq![packet@]);
            }
            0
        }
    }

    /// The transmit path of one poll: replenish the free queue from the
    /// pool, stage up to `min(max, BATCH_SIZE)` records, hand them to the
    /// send callback in one call, reclaim the records it filled or queued,
    /// and flush. Returns how many buffers the callback queued.
    pub fn tx<S: Sender>(&mut self, max: usize, sender: &mut S) -> (r: Result<usize, Error>)
        requires
            old(self).wf(),
        ensures
            final(self).wf(),
            r matches Ok(n) && n <= min(max as int, BATCH_SIZE as int) && final(self).ready_q().len()
                <= old(self).ready_q().len() + n,
            final(self).rx_q() == old(self).rx_q(),
            final(self).entry() == old(self).entry(),
            old(self).free_q().len() > 0 ==> final(self).free_q() == old(self).free_q().skip(
                min(min(max as int, BATCH_SIZE as int), old(self).free_q().len() as int),
            ),
    {
        let now = now_millis();
        self.refill_free();
        let mut batch = self.stage_tx(max, now);
        let ghost staged = batch@;
        sender.sendv(&mut batch);
        proof {
            self.lemma_accepts_tx_same(staged, batch@);
            lemma_reclaim_all_tx_len(batch@);
        }
        let n = self.absorb_tx(batch);
        self.flush();
        Ok(n)
    }

    /// The receive path of one poll: replenish the received queue from the
    /// driver and the free queue from the pool, stage up to
    /// `min(max, BATCH_SIZE)` records — each a received frame paired with
    /// a companion transmit token — hand them to the receive callback in
    /// one call, reclaim what it queued or answered, and flush. Returns
    /// how many buffers the callback queued.
    pub fn rx<R: Receiver>(&mut self, max: usize, receptor: &mut R) -> (r: Result<usize, Error>)
        requires
            old(self).wf(),
        ensures
            final(self).wf(),
            r matches Ok(n) && n <= 2 * min(max as int, BATCH_SIZE as int)
                && final(self).ready_q().len() <= old(self).ready_q().len() + n,
            final(self).entry() == old(self).entry(),
            old(self).rx_q().len() > 0 && old(self).free_q().len() > 0 ==> final(self).rx_q()
                == old(self).rx_q().skip(
                min(
                    min(max as int, BATCH_SIZE as int),
                    min(old(self).rx_q().len() as int, old(self).free_q().len() as int),
                ),
            ) && final(self).free_q() == old(self).free_q().skip(
                min(
                    min(max as int, BATCH_SIZE as int),
                    min(old(self).rx_q().len() as int, old(self).free_q().len() as int),
                ),
            ),
    {
        let now = now_millis();
        self.refill_rx();
        self.refill_free();
        let mut batch = self.stage_rx(max, now);
        let ghost staged = batch@;
        receptor.receivev(&mut batch);
        proof {
            self.lemma_accepts_rx_same(staged, batch@);
            lemma_reclaim_all_rx_len(batch@);
        }
        let n = self.absorb_rx(batch);
        self.flush();
        Ok(n)
    }
}

} // verus!
