use vstd::prelude::*;

verus! {

/// The mathematical model of a packet buffer: an identity tag, a fixed
/// capacity, and the bytes it currently holds (their count is the buffer's
/// current length).
pub struct PacketModel {
    pub tag: u64,
    pub cap: nat,
    pub bytes: Seq<u8>,
}

/// An owned, fixed-capacity packet buffer with an identity tag.
///
/// A buffer belongs to exactly one owner at every instant: the bridge's
/// queues and the exchange units move values of this type, never copies.
/// The tag names the buffer across those moves, so contracts can speak of a
/// buffer's identity rather than of its byte content.
#[derive(Debug)]
pub struct Packet {
    tag: u64,
    cap: usize,
    data: Vec<u8>,
}

impl View for Packet {
    type V = PacketModel;

    closed spec fn view(&self) -> PacketModel {
        PacketModel { tag: self.tag, cap: self.cap as nat, bytes: self.data@ }
    }
}

impl Packet {
    /// A buffer's content length never exceeds its capacity.
    #[verifier::type_invariant]
    spec fn capacity_bound(self) -> bool {
        self.data.len() <= self.cap
    }

    /// Make a buffer of the given capacity, holding `len` zeroed bytes.
    pub(crate) fn mint(tag: u64, cap: usize, len: usize) -> (r: Packet)
        requires
            len <= cap,
        ensures
            r@.tag == tag,
            r@.cap == cap,
            r@.bytes == Seq::new(len as nat, |i: int| 0u8),
    {
        let mut data: Vec<u8> = Vec::new();
        let mut k: usize = 0;
        while k < len
            invariant
                k <= len,
                data@ == Seq::new(k as nat, |i: int| 0u8),
            decreases len - k,
        {
            data.push(0u8);
            proof {
                assert(data@ =~= Seq::new((k + 1) as nat, |i: int| 0u8));
            }
            k = k + 1;
        }
        Packet { tag, cap, data }
    }

    /// The identity tag.
    pub fn tag(&self) -> (r: u64)
        ensures
            r == self@.tag,
    {
        self.tag
    }

    /// The fixed capacity, in bytes.
    pub fn capacity(&self) -> (r: usize)
        ensures
            r == self@.cap,
    {
        self.cap
    }

    /// The current content length, in bytes: never above the capacity.
    pub fn len(&self) -> (r: usize)
        ensures
            r == self@.bytes.len(),
            r <= self@.cap,
    {
        proof {
            use_type_invariant(&*self);
        }
        self.data.len()
    }

    /// Read one payload byte.
    pub fn byte_at(&self, i: usize) -> (r: u8)
        requires
            i < self@.bytes.len(),
        ensures
            r == self@.bytes[i as int],
    {
        self.data[i]
    }

    /// A read-only view of exactly the bytes currently held.
    pub fn payload(&self) -> (r: &[u8])
        ensures
            r@ == self@.bytes,
    {
        self.data.as_slice()
    }

    /// Overwrite one payload byte; length, capacity and identity stay.
    pub fn write_at(&mut self, i: usize, b: u8)
        requires
            i < old(self)@.bytes.len(),
        ensures
            final(self)@.tag == old(self)@.tag,
            final(self)@.cap == old(self)@.cap,
            final(self)@.bytes == old(self)@.bytes.update(i as int, b),
    {
        proof {
            use_type_invariant(&*self);
        }
        let mut data: Vec<u8> = Vec::new();
        core::mem::swap(&mut data, &mut self.data);
        data[i] = b;
        core::mem::swap(&mut data, &mut self.data);
    }

    /// Set the content length to exactly `len`: surplus bytes are cut,
    /// missing bytes are zeroed.
    pub(crate) fn set_len(&mut self, len: usize)
        requires
            len <= old(self)@.cap,
        ensures
            final(self)@.tag == old(self)@.tag,
            final(self)@.cap == old(self)@.cap,
            final(self)@.bytes.len() == len,
            final(self)@.bytes == if len <= old(self)@.bytes.len() {
                old(self)@.bytes.take(len as int)
            } else {
                old(self)@.bytes + Seq::new((len - old(self)@.bytes.len()) as nat, |i: int| 0u8)
            },
    {
        proof {
            use_type_invariant(&*self);
        }
        let mut data: Vec<u8> = Vec::new();
        core::mem::swap(&mut data, &mut self.data);
        let ghost orig = data@;
        if data.len() > len {
            data.truncate(len);
            proof {
                assert(data@ =~= orig.take(len as int) + Seq::<u8>::empty());
            }
        } else {
            while data.len() < len
                invariant
                    data@.len() <= len,
                    data@ == orig + Seq::new((data@.len() - orig.len()) as nat, |i: int| 0u8),
                    orig.len() <= data@.len(),
                decreases len - data.len(),
            {
                data.push(0u8);
                proof {
                    assert(data@ =~= orig + Seq::new((data@.len() - orig.len()) as nat, |i: int| 0u8));
                }
            }
            proof {
                assert(data@ =~= orig.take(orig.len() as int) + Seq::new((len - orig.len()) as nat, |i: int| 0u8));
            }
        }
        core::mem::swap(&mut data, &mut self.data);
    }
}

} // verus!
