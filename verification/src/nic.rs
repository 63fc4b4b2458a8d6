use vstd::prelude::*;
use crate::packet::Packet;

verus! {

/// The contract the bridge consumes from a packet pool and its poll-mode
/// driver: batched allocation, batched non-blocking receive, and batched
/// non-blocking transmit over buffers of one fixed size.
///
/// Exhaustion is not an error anywhere in this contract: `alloc_batch` and
/// `rx_batch` may return fewer buffers than asked for, down to none, and
/// `tx_batch` may accept fewer than offered, down to none.
///
/// The ghost set of issued tags is how the contract promises buffer
/// identity: every buffer a source hands out carries a tag never issued
/// before, so a buffer never aliases one that is already in flight.
pub trait Nic: Sized {
    /// The fixed capacity, in bytes, of every buffer of this pool.
    spec fn spec_entry_size(&self) -> usize;

    /// The identity tags of all buffers ever handed out.
    spec fn issued(&self) -> Set<u64>;

    /// Report the pool's fixed buffer capacity.
    fn entry_size(&self) -> (r: usize)
        ensures
            r == self.spec_entry_size(),
    ;

    /// Allocate up to `want` free buffers, full-length and zero-filled;
    /// fewer — or none, when the pool is exhausted — is not an error.
    fn alloc_batch(&mut self, want: usize) -> (r: Vec<Packet>)
        ensures
            r.len() <= want,
            final(self).spec_entry_size() == old(self).spec_entry_size(),
            old(self).issued().subset_of(final(self).issued()),
            forall|i: int|
                0 <= i < r.len() ==> {
                    &&& (#[trigger] r@[i])@.cap == old(self).spec_entry_size()
                    &&& r@[i]@.bytes.len() == r@[i]@.cap
                    &&& (forall|k: int| 0 <= k < r@[i]@.bytes.len() ==> (#[trigger] r@[i]@.bytes[k])
                        == 0u8)
                    &&& !old(self).issued().contains(r@[i]@.tag)
                    &&& final(self).issued().contains(r@[i]@.tag)
                },
            forall|i: int, j: int| 0 <= i < j < r.len() ==> r@[i]@.tag != r@[j]@.tag,
    ;

    /// Poll up to `want` received frames, oldest first; fewer — or none,
    /// when nothing has arrived — is not an error.
    fn rx_batch(&mut self, want: usize) -> (r: Vec<Packet>)
        ensures
            r.len() <= want,
            final(self).spec_entry_size() == old(self).spec_entry_size(),
            old(self).issued().subset_of(final(self).issued()),
            forall|i: int|
                0 <= i < r.len() ==> {
                    &&& (#[trigger] r@[i])@.cap == old(self).spec_entry_size()
                    &&& !old(self).issued().contains(r@[i]@.tag)
                    &&& final(self).issued().contains(r@[i]@.tag)
                },
            forall|i: int, j: int| 0 <= i < j < r.len() ==> r@[i]@.tag != r@[j]@.tag,
    ;

    /// Offer the whole queue for transmission. The driver takes some prefix
    /// — possibly empty — and returns how many buffers it accepted; the
    /// buffers not accepted stay in the queue, order preserved.
    fn tx_batch(&mut self, queue: &mut Vec<Packet>) -> (r: usize)
        ensures
            r <= old(queue).len(),
            final(queue)@ =~= old(queue)@.skip(r as int),
            final(self).spec_entry_size() == old(self).spec_entry_size(),
            old(self).issued().subset_of(final(self).issued()),
    ;
}

} // verus!
