use vstd::prelude::*;
use crate::error::Error;
use crate::packet::{Packet, PacketModel};

verus! {

/// A single-use capability over one transmit buffer.
///
/// Consuming the token destroys it — the move makes a second consumption a
/// type error, not a runtime one — and negotiates the outgoing frame length
/// against the buffer's fixed capacity.
#[derive(Debug)]
pub struct TxToken {
    packet: Packet,
}

impl View for TxToken {
    type V = PacketModel;

    closed spec fn view(&self) -> PacketModel {
        self.packet@
    }
}

impl TxToken {
    /// Wrap a buffer into a fresh token.
    pub(crate) fn issue(packet: Packet) -> (r: TxToken)
        ensures
            r@ == packet@,
    {
        TxToken { packet }
    }

    /// The identity tag of the wrapped buffer.
    pub fn tag(&self) -> (r: u64)
        ensures
            r == self@.tag,
    {
        self.packet.tag()
    }

    /// The wrapped buffer's fixed capacity, in bytes.
    pub fn capacity(&self) -> (r: usize)
        ensures
            r == self@.cap,
    {
        self.packet.capacity()
    }

    /// Unwrap the token back into its buffer, as it stands.
    pub(crate) fn into_packet(self) -> (r: Packet)
        ensures
            r@ == self@,
    {
        self.packet
    }

    /// Consume the token, requesting an outgoing frame of exactly `len`
    /// bytes.
    ///
    /// When `len` fits the capacity, the buffer comes back with its length
    /// set to exactly `len` — bytes past the old content are zeroed — ready
    /// to be filled and handed on for transmission. When `len` exceeds the
    /// capacity, the call fails with [`Error::CapacityExceeded`] and returns
    /// the token unchanged, so the caller can retry with a smaller length or
    /// drop the buffer deliberately.
    pub fn consume(self, len: usize) -> (r: Result<Packet, (TxToken, Error)>)
        ensures
            (r is Ok) <==> len <= self@.cap,
            len <= self@.cap ==> (r matches Ok(p)
                && p@.tag == self@.tag
                && p@.cap == self@.cap
                && p@.bytes.len() == len
                && p@.bytes == if len <= self@.bytes.len() {
                    self@.bytes.take(len as int)
                } else {
                    self@.bytes + Seq::new((len - self@.bytes.len()) as nat, |i: int| 0u8)
                }),
            len > self@.cap ==> (r matches Err(e) && e.0 == self && e.1 == Error::CapacityExceeded),
    {
        if len <= self.packet.capacity() {
            let mut packet = self.packet;
            packet.set_len(len);
            Ok(packet)
        } else {
            Err((self, Error::CapacityExceeded))
        }
    }
}

} // verus!
