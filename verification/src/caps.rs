use vstd::prelude::*;

verus! {

/// Per-protocol checksum-offload flags; `true` means the device computes or
/// verifies that protocol's checksum itself.
#[derive(Clone, Copy, Debug, PartialEq, Eq, Structural)]
pub struct Checksums {
    pub ipv4: bool,
    pub icmpv4: bool,
    pub udp: bool,
    pub tcp: bool,
}

impl Checksums {
    /// The flag set that supports nothing.
    pub open spec fn spec_no_support() -> Checksums {
        Checksums { ipv4: false, icmpv4: false, udp: false, tcp: false }
    }

    /// No checksum offload of any kind: the stack does all checksums itself.
    pub fn no_support() -> (r: Checksums)
        ensures
            r == Checksums::spec_no_support(),
    {
        Checksums { ipv4: false, icmpv4: false, udp: false, tcp: false }
    }
}

/// What the device reports about itself when the stack sets up: the fixed
/// maximum transmission unit, an optional burst-size bound, and the
/// checksum-offload flags.
#[derive(Clone, Copy, Debug)]
pub struct Personality {
    /// The largest frame the device accepts: the pool's fixed buffer size.
    pub max_transmission_unit: usize,
    /// An upper bound on batch size, or `None` when unbounded.
    pub max_burst_size: Option<usize>,
    /// Checksum work the device does itself: here, none.
    pub checksums: Checksums,
}

} // verus!
