use vstd::prelude::*;
use crate::packet::PacketModel;

verus! {

/// The identity tags of a queue of buffers, in queue order.
pub open spec fn tags_of(s: Seq<PacketModel>) -> Seq<u64> {
    Seq::new(s.len(), |i: int| s[i].tag)
}

/// No identity tag occurs twice within the queue.
pub open spec fn distinct_tags(s: Seq<PacketModel>) -> bool {
    forall|i: int, j: int| 0 <= i < j < s.len() ==> s[i].tag != s[j].tag
}

/// No identity tag occurs in both queues.
pub open spec fn tag_disjoint(a: Seq<PacketModel>, b: Seq<PacketModel>) -> bool {
    forall|i: int, j: int| 0 <= i < a.len() && 0 <= j < b.len() ==> a[i].tag != b[j].tag
}

/// Every buffer's tag was issued by the given source.
pub open spec fn all_issued(s: Seq<PacketModel>, issued: Set<u64>) -> bool {
    forall|i: int| 0 <= i < s.len() ==> issued.contains(#[trigger] s[i].tag)
}

/// Every buffer has the given fixed capacity.
pub open spec fn uniform_cap(s: Seq<PacketModel>, cap: nat) -> bool {
    forall|i: int| 0 <= i < s.len() ==> (#[trigger] s[i].cap) == cap
}

} // verus!
