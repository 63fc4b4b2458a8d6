use vstd::prelude::*;
use crate::error::Error;
use crate::handle::Handle;
use crate::packet::{Packet, PacketModel};
use crate::token::TxToken;

verus! {

/// One transmit exchange record, independently owned by its index in the
/// batch handed to the stack's send callback.
///
/// A fresh unit carries its buffer inside a [`TxToken`]. The callback takes
/// the token, consumes it to negotiate a frame length, fills the bytes, and
/// submits the buffer back; the bridge then reclaims it into the ready
/// queue. A unit whose handle was queued but whose token was never taken is
/// reclaimed as it stands; anything else is dropped back to the pool.
pub struct TxUnit {
    handle: Handle,
    token: Option<TxToken>,
    sent: Option<Packet>,
    tag: Ghost<u64>,
    cap: Ghost<nat>,
}

impl TxUnit {
    /// Whatever buffer the unit holds is the one it was staged with.
    #[verifier::type_invariant]
    spec fn carrier_inv(self) -> bool {
        &&& (self.token matches Some(t) ==> t@.tag == self.tag@ && t@.cap == self.cap@)
        &&& (self.sent matches Some(p) ==> p@.tag == self.tag@ && p@.cap == self.cap@)
        &&& !(self.token is Some && self.sent is Some)
    }

    /// The identity tag of the buffer this unit carries.
    pub closed spec fn unit_tag(&self) -> u64 {
        self.tag@
    }

    /// The fixed capacity of the buffer this unit carries.
    pub closed spec fn unit_cap(&self) -> nat {
        self.cap@
    }

    /// The unit's handle value.
    pub closed spec fn spec_handle(&self) -> Handle {
        self.handle
    }

    /// The buffer inside the not-yet-taken token, if any.
    pub closed spec fn token_model(&self) -> Option<PacketModel> {
        match self.token {
            Some(t) => Some(t@),
            None => None,
        }
    }

    /// The buffer submitted back after consumption, if any.
    pub closed spec fn sent_model(&self) -> Option<PacketModel> {
        match self.sent {
            Some(p) => Some(p@),
            None => None,
        }
    }

    /// A callback preserves each record's carried buffer identity.
    pub open spec fn same_carrier(&self, other: TxUnit) -> bool {
        self.unit_tag() == other.unit_tag() && self.unit_cap() == other.unit_cap()
    }

    /// The buffers this unit hands back to the ready queue: a submitted
    /// reply, or — matching the handle-queued protocol — the untaken
    /// token's buffer when the handle was queued.
    pub open spec fn reclaim(&self) -> Seq<PacketModel> {
        if self.sent_model() is Some {
            seq![self.sent_model().unwrap()]
        } else if self.token_model() is Some && self.spec_handle().is_queued() {
            seq![self.token_model().unwrap()]
        } else {
            Seq::empty()
        }
    }

    /// Stage a free buffer as a fresh unit with a newly stamped handle.
    pub(crate) fn stage(packet: Packet, now: i64) -> (r: TxUnit)
        ensures
            r.unit_tag() == packet@.tag,
            r.unit_cap() == packet@.cap,
            r.token_model() == Some(packet@),
            r.sent_model() is None,
            !r.spec_handle().is_queued(),
            r.spec_handle().stamp() == now,
    {
        let ghost tag = packet@.tag;
        let ghost cap = packet@.cap;
        TxUnit {
            handle: Handle::new(now),
            token: Some(TxToken::issue(packet)),
            sent: None,
            tag: Ghost(tag),
            cap: Ghost(cap),
        }
    }

    /// Read the unit's handle.
    pub fn handle(&self) -> (h: &Handle)
        ensures
            *h == self.spec_handle(),
    {
        &self.handle
    }

    /// Ask that this unit's buffer be queued for transmission: the
    /// handle-queued protocol. This device always grants the request.
    pub fn queue(&mut self) -> (r: Result<(), Error>)
        ensures
            r is Ok,
            final(self).spec_handle().is_queued(),
            final(self).spec_handle().stamp() == old(self).spec_handle().stamp(),
            final(self).unit_tag() == old(self).unit_tag(),
            final(self).unit_cap() == old(self).unit_cap(),
            final(self).token_model() == old(self).token_model(),
            final(self).sent_model() == old(self).sent_model(),
    {
        proof {
            use_type_invariant(&*self);
        }
        self.handle.queue()
    }

    /// Take the transmit token out of the unit; at most one take succeeds.
    pub fn take_token(&mut self) -> (r: Option<TxToken>)
        ensures
            old(self).token_model() is Some ==> (r matches Some(t) && t@ == old(
                self,
            ).token_model().unwrap() && t@.tag == old(self).unit_tag() && t@.cap == old(
                self,
            ).unit_cap()),
            r is Some ==> old(self).sent_model() is None,
            old(self).token_model() is None ==> r is None,
            final(self).token_model() is None,
            final(self).sent_model() == old(self).sent_model(),
            final(self).unit_tag() == old(self).unit_tag(),
            final(self).unit_cap() == old(self).unit_cap(),
            final(self).spec_handle() == old(self).spec_handle(),
    {
        proof {
            use_type_invariant(&*self);
        }
        let mut t: Option<TxToken> = None;
        core::mem::swap(&mut t, &mut self.token);
        t
    }

    /// Hand the consumed, filled buffer back for reclaim into the ready
    /// queue. Only the buffer the unit was staged with is accepted.
    pub fn submit(&mut self, packet: Packet)
        requires
            packet@.tag == old(self).unit_tag(),
            packet@.cap == old(self).unit_cap(),
            old(self).token_model() is None,
            old(self).sent_model() is None,
        ensures
            final(self).sent_model() == Some(packet@),
            final(self).token_model() is None,
            final(self).unit_tag() == old(self).unit_tag(),
            final(self).unit_cap() == old(self).unit_cap(),
            final(self).spec_handle() == old(self).spec_handle(),
    {
        proof {
            use_type_invariant(&*self);
        }
        self.sent = Some(packet);
    }

    /// Tear the unit apart for reclaim.
    pub(crate) fn into_parts(self) -> (r: (Handle, Option<TxToken>, Option<Packet>))
        ensures
            r.0 == self.spec_handle(),
            (r.1 matches Some(t) && self.token_model() == Some(t@)) || (r.1 is None
                && self.token_model() is None),
            (r.2 matches Some(p) && self.sent_model() == Some(p@)) || (r.2 is None
                && self.sent_model() is None),
            r.1 matches Some(t) ==> t@.tag == self.unit_tag() && t@.cap == self.unit_cap(),
            r.2 matches Some(p) ==> p@.tag == self.unit_tag() && p@.cap == self.unit_cap(),
            !(r.1 is Some && r.2 is Some),
    {
        proof {
            use_type_invariant(&self);
        }
        let TxUnit { handle, token, sent, tag: _, cap: _ } = self;
        (handle, token, sent)
    }
}

/// One receive exchange record, independently owned by its index in the
/// batch handed to the stack's receive callback.
///
/// The received buffer stays inside the unit for the whole poll call; the
/// callback reads it through the unit's accessors and decides its fate by
/// queueing the handle. A companion transmit token over a free buffer lets
/// the callback answer in the same exchange.
pub struct RxUnit {
    handle: Handle,
    packet: Packet,
    resp_token: Option<TxToken>,
    resp_sent: Option<Packet>,
    ctag: Ghost<u64>,
    ccap: Ghost<nat>,
}

impl RxUnit {
    /// Whatever companion buffer the unit holds is the one it was staged
    /// with.
    #[verifier::type_invariant]
    spec fn carrier_inv(self) -> bool {
        &&& (self.resp_token matches Some(t) ==> t@.tag == self.ctag@ && t@.cap == self.ccap@)
        &&& (self.resp_sent matches Some(p) ==> p@.tag == self.ctag@ && p@.cap == self.ccap@)
        &&& !(self.resp_token is Some && self.resp_sent is Some)
    }

    /// The received buffer, bytes and identity.
    pub closed spec fn rx_model(&self) -> PacketModel {
        self.packet@
    }

    /// The identity tag of the companion transmit buffer.
    pub closed spec fn companion_tag(&self) -> u64 {
        self.ctag@
    }

    /// The fixed capacity of the companion transmit buffer.
    pub closed spec fn companion_cap(&self) -> nat {
        self.ccap@
    }

    /// The unit's handle value.
    pub closed spec fn spec_handle(&self) -> Handle {
        self.handle
    }

    /// The buffer inside the not-yet-taken companion token, if any.
    pub closed spec fn companion_model(&self) -> Option<PacketModel> {
        match self.resp_token {
            Some(t) => Some(t@),
            None => None,
        }
    }

    /// The reply submitted back after consuming the companion, if any.
    pub closed spec fn resp_model(&self) -> Option<PacketModel> {
        match self.resp_sent {
            Some(p) => Some(p@),
            None => None,
        }
    }

    /// A callback preserves each record's carried buffer identities.
    pub open spec fn same_carrier(&self, other: RxUnit) -> bool {
        self.rx_model() == other.rx_model() && self.companion_tag() == other.companion_tag()
            && self.companion_cap() == other.companion_cap()
    }

    /// The buffers this unit hands back to the ready queue: the received
    /// buffer itself when its handle was queued — by identity, no copy —
    /// followed by a submitted reply.
    pub open spec fn reclaim(&self) -> Seq<PacketModel> {
        (if self.spec_handle().is_queued() {
            seq![self.rx_model()]
        } else {
            Seq::empty()
        }) + (if self.resp_model() is Some {
            seq![self.resp_model().unwrap()]
        } else {
            Seq::empty()
        })
    }

    /// Stage a received buffer and a free companion buffer as a fresh unit
    /// with a newly stamped handle.
    pub(crate) fn stage(packet: Packet, companion: Packet, now: i64) -> (r: RxUnit)
        ensures
            r.rx_model() == packet@,
            r.companion_tag() == companion@.tag,
            r.companion_cap() == companion@.cap,
            r.companion_model() == Some(companion@),
            r.resp_model() is None,
            !r.spec_handle().is_queued(),
            r.spec_handle().stamp() == now,
    {
        let ghost ctag = companion@.tag;
        let ghost ccap = companion@.cap;
        RxUnit {
            handle: Handle::new(now),
            packet,
            resp_token: Some(TxToken::issue(companion)),
            resp_sent: None,
            ctag: Ghost(ctag),
            ccap: Ghost(ccap),
        }
    }

    /// The identity tag of the received buffer.
    pub fn frame_tag(&self) -> (r: u64)
        ensures
            r == self.rx_model().tag,
    {
        self.packet.tag()
    }

    /// The received frame's length, in bytes.
    pub fn len(&self) -> (r: usize)
        ensures
            r == self.rx_model().bytes.len(),
    {
        self.packet.len()
    }

    /// Read one byte of the received frame.
    pub fn byte_at(&self, i: usize) -> (r: u8)
        requires
            i < self.rx_model().bytes.len(),
        ensures
            r == self.rx_model().bytes[i as int],
    {
        self.packet.byte_at(i)
    }

    /// A read-only view of exactly the received frame's bytes.
    pub fn payload(&self) -> (r: &[u8])
        ensures
            r@ == self.rx_model().bytes,
    {
        self.packet.payload()
    }

    /// Read the unit's handle.
    pub fn handle(&self) -> (h: &Handle)
        ensures
            *h == self.spec_handle(),
    {
        &self.handle
    }

    /// Ask that the received buffer be queued for retransmission: the
    /// handle-queued protocol. This device always grants the request.
    pub fn queue(&mut self) -> (r: Result<(), Error>)
        ensures
            r is Ok,
            final(self).spec_handle().is_queued(),
            final(self).spec_handle().stamp() == old(self).spec_handle().stamp(),
            final(self).rx_model() == old(self).rx_model(),
            final(self).companion_tag() == old(self).companion_tag(),
            final(self).companion_cap() == old(self).companion_cap(),
            final(self).companion_model() == old(self).companion_model(),
            final(self).resp_model() == old(self).resp_model(),
    {
        proof {
            use_type_invariant(&*self);
        }
        self.handle.queue()
    }

    /// Take the companion transmit token; at most one take succeeds.
    pub fn take_companion(&mut self) -> (r: Option<TxToken>)
        ensures
            old(self).companion_model() is Some ==> (r matches Some(t) && t@ == old(
                self,
            ).companion_model().unwrap() && t@.tag == old(self).companion_tag() && t@.cap == old(
                self,
            ).companion_cap()),
            r is Some ==> old(self).resp_model() is None,
            old(self).companion_model() is None ==> r is None,
            final(self).companion_model() is None,
            final(self).resp_model() == old(self).resp_model(),
            final(self).rx_model() == old(self).rx_model(),
            final(self).companion_tag() == old(self).companion_tag(),
            final(self).companion_cap() == old(self).companion_cap(),
            final(self).spec_handle() == old(self).spec_handle(),
    {
        proof {
            use_type_invariant(&*self);
        }
        let mut t: Option<TxToken> = None;
        core::mem::swap(&mut t, &mut self.resp_token);
        t
    }

    /// Hand the consumed, filled reply back for reclaim into the ready
    /// queue. Only the buffer the unit was staged with is accepted.
    pub fn submit(&mut self, packet: Packet)
        requires
            packet@.tag == old(self).companion_tag(),
            packet@.cap == old(self).companion_cap(),
            old(self).companion_model() is None,
            old(self).resp_model() is None,
        ensures
            final(self).resp_model() == Some(packet@),
            final(self).companion_model() is None,
            final(self).rx_model() == old(self).rx_model(),
            final(self).companion_tag() == old(self).companion_tag(),
            final(self).companion_cap() == old(self).companion_cap(),
            final(self).spec_handle() == old(self).spec_handle(),
    {
        proof {
            use_type_invariant(&*self);
        }
        self.resp_sent = Some(packet);
    }

    /// Tear the unit apart for reclaim.
    pub(crate) fn into_parts(self) -> (r: (Handle, Packet, Option<TxToken>, Option<Packet>))
        ensures
            r.0 == self.spec_handle(),
            r.1@ == self.rx_model(),
            (r.2 matches Some(t) && self.companion_model() == Some(t@)) || (r.2 is None
                && self.companion_model() is None),
            (r.3 matches Some(p) && self.resp_model() == Some(p@)) || (r.3 is None
                && self.resp_model() is None),
            r.2 matches Some(t) ==> t@.tag == self.companion_tag() && t@.cap == self.companion_cap(),
            r.3 matches Some(p) ==> p@.tag == self.companion_tag() && p@.cap == self.companion_cap(),
            !(r.2 is Some && r.3 is Some),
    {
        proof {
            use_type_invariant(&self);
        }
        let RxUnit { handle, packet, resp_token, resp_sent, ctag: _, ccap: _ } = self;
        (handle, packet, resp_token, resp_sent)
    }
}

} // verus!
