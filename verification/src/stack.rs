use vstd::prelude::*;
use crate::units::{RxUnit, TxUnit};

verus! {

/// The stack side of the receive path: one callback invocation per poll,
/// handed the whole batch of exchange records to process in place.
///
/// An implementation may read each record's frame, queue its handle, and
/// consume its companion token; what it must not do is grow, shrink or
/// permute the batch, or move a buffer from one record to another — each
/// record keeps the buffer identities it was staged with.
pub trait Receiver {
    /// Process a batch of received frames in place.
    fn receivev(&mut self, batch: &mut Vec<RxUnit>)
        ensures
            final(batch)@.len() == old(batch)@.len(),
            forall|i: int|
                0 <= i < old(batch)@.len() ==> (#[trigger] final(batch)@[i]).same_carrier(
                    old(batch)@[i],
                ),
    ;
}

/// The stack side of the transmit path: one callback invocation per poll,
/// handed the whole batch of exchange records to fill in place.
///
/// The same batch discipline as for [`Receiver`] holds: records are
/// processed in place and keep the buffer identities they were staged with.
pub trait Sender {
    /// Fill a batch of transmit records in place.
    fn sendv(&mut self, batch: &mut Vec<TxUnit>)
        ensures
            final(batch)@.len() == old(batch)@.len(),
            forall|i: int|
                0 <= i < old(batch)@.len() ==> (#[trigger] final(batch)@[i]).same_carrier(
                    old(batch)@[i],
                ),
    ;
}

} // verus!
