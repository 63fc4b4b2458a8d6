use vstd::prelude::*;
use crate::caps::Checksums;
use crate::error::Error;

verus! {

/// Per-exchange metadata, correlated with one buffer for the lifetime of one
/// poll call: a capture timestamp and a flag the stack callback sets to ask
/// that the buffer be queued for transmission instead of being dropped.
#[derive(Clone, Copy, Debug)]
pub struct Handle {
    queue_flag: bool,
    timestamp: i64,
}

impl Handle {
    /// Whether the stack asked for the buffer to be queued.
    pub closed spec fn is_queued(&self) -> bool {
        self.queue_flag
    }

    /// The capture time, in milliseconds.
    pub closed spec fn stamp(&self) -> i64 {
        self.timestamp
    }

    /// A fresh handle: not queued, stamped with the given time.
    pub(crate) fn new(now: i64) -> (r: Handle)
        ensures
            !r.is_queued(),
            r.stamp() == now,
    {
        Handle { queue_flag: false, timestamp: now }
    }

    /// Ask that the buffer this handle is paired with be queued for
    /// transmission. This device always grants the request.
    pub fn queue(&mut self) -> (r: Result<(), Error>)
        ensures
            r is Ok,
            final(self).is_queued(),
            final(self).stamp() == old(self).stamp(),
        no_unwind
    {
        self.queue_flag = true;
        Ok(())
    }

    /// Whether the queue request was made on this handle.
    pub fn queued(&self) -> (r: bool)
        ensures
            r == self.is_queued(),
    {
        self.queue_flag
    }

    /// The reference timestamp for this packet.
    pub fn timestamp(&self) -> (r: i64)
        ensures
            r == self.stamp(),
    {
        self.timestamp
    }

    /// Capabilities used for this packet: this device offloads nothing.
    pub fn capabilities(&self) -> (r: Checksums)
        ensures
            r == Checksums::spec_no_support(),
    {
        Checksums::no_support()
    }
}

} // verus!
