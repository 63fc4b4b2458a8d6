//! A bridge between a poll-mode, pool-allocated packet driver and a network
//! stack that expects a token-based, per-packet zero-copy device.
//!
//! The bridge owns three bounded FIFO queues of packet buffers — received,
//! free-for-send, and ready-to-transmit — translates driver batches into
//! single-packet exchange units handed to stack callbacks, and re-injects
//! the stack's decisions back into driver batches. Every buffer carries an
//! identity tag, and the bridge's well-formedness invariant keeps each tag
//! in exactly one place at every instant.
use vstd::prelude::*;

mod caps;
mod clock;
mod error;
mod handle;
mod nic;
mod packet;
mod phy;
mod sim;
mod stack;
mod tags;
mod token;
mod units;

pub use caps::Checksums;
pub use caps::Personality;
pub use error::Error;
pub use handle::Handle;
pub use nic::Nic;
pub use packet::Packet;
pub use packet::PacketModel;
pub use phy::lemma_reclaim_all_rx_len;
pub use phy::lemma_reclaim_all_rx_snoc;
pub use phy::lemma_reclaim_all_tx_len;
pub use phy::lemma_reclaim_all_tx_snoc;
pub use phy::lemma_zero_copy_retransmit;
pub use phy::reclaim_all_rx;
pub use phy::reclaim_all_tx;
pub use phy::Phy;
pub use sim::FillSender;
pub use sim::NullSender;
pub use sim::QueueAllSender;
pub use sim::RetainAll;
pub use sim::RetainNone;
pub use sim::SimNic;
pub use stack::Receiver;
pub use stack::Sender;
pub use tags::all_issued;
pub use tags::distinct_tags;
pub use tags::tag_disjoint;
pub use tags::tags_of;
pub use tags::uniform_cap;
pub use token::TxToken;
pub use units::RxUnit;
pub use units::TxUnit;

verus! {

/// The bounded unit of work exchanged with the driver or a callback per
/// poll: no single poll exposes more than this many exchange records, and
/// reaching this many ready buffers triggers a flush.
pub const BATCH_SIZE: usize = 32;

} // verus!
