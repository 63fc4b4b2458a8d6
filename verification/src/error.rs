use vstd::prelude::*;

verus! {

/// The one genuine error of the bridge.
///
/// Pool or driver exhaustion is not an error: batch operations then simply
/// hand out fewer buffers, down to none, and a poll cycle does zero work.
#[derive(Clone, Copy, Debug, PartialEq, Eq, Structural)]
pub enum Error {
    /// A transmit token was consumed with a requested length above the
    /// buffer's fixed capacity.
    CapacityExceeded,
}

} // verus!
