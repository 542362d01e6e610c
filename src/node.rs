use vstd::prelude::*;

verus! {

/// Health of a cluster member, as asserted by an outside monitor.
#[derive(Debug, Clone, Copy, PartialEq, Eq, Structural)]
pub enum NodeStatus {
    Valid,
    Ill,
    Unvalid,
}

impl Default for NodeStatus {
    fn default() -> (r: Self)
        ensures
            r == NodeStatus::Valid,
    {
        NodeStatus::Valid
    }
}

/// A cluster member as callers see it.
#[derive(Debug)]
pub struct ClusterNode {
    pub id: u64,
    pub index: u64,
    pub is_local: bool,
    pub addr: String,
    pub status: NodeStatus,
}

/// A cluster member as the membership store keeps it: besides the public
/// fields it records whether an outbound peer channel is live for it.
#[derive(Debug)]
pub struct ClusterInnerNode {
    pub id: u64,
    pub index: u64,
    pub is_local: bool,
    pub addr: String,
    pub status: NodeStatus,
    pub has_sync_sender: bool,
}

/// The public fields of an inner record.
pub open spec fn public_part(n: ClusterInnerNode) -> ClusterNode {
    ClusterNode { id: n.id, index: n.index, is_local: n.is_local, addr: n.addr, status: n.status }
}

/// Two public records that agree on every field, the address by its characters.
pub open spec fn same_node(a: ClusterNode, b: ClusterNode) -> bool {
    &&& a.id == b.id
    &&& a.index == b.index
    &&& a.is_local == b.is_local
    &&& a.addr@ == b.addr@
    &&& a.status == b.status
}

/// Two inner records that agree on every field, the address by its characters.
pub open spec fn same_inner_node(a: ClusterInnerNode, b: ClusterInnerNode) -> bool {
    &&& same_node(public_part(a), public_part(b))
    &&& a.has_sync_sender == b.has_sync_sender
}

impl ClusterNode {
    /// A copy of this record.
    pub fn duplicate(&self) -> (r: ClusterNode)
        ensures
            same_node(r, *self),
    {
        ClusterNode {
            id: self.id,
            index: self.index,
            is_local: self.is_local,
            addr: self.addr.clone(),
            status: self.status,
        }
    }
}

impl ClusterInnerNode {
    /// A copy of this record.
    pub fn duplicate(&self) -> (r: ClusterInnerNode)
        ensures
            same_inner_node(r, *self),
    {
        ClusterInnerNode {
            id: self.id,
            index: self.index,
            is_local: self.is_local,
            addr: self.addr.clone(),
            status: self.status,
            has_sync_sender: self.has_sync_sender,
        }
    }

    /// The public record with the same fields.
    pub fn to_cluster_node(&self) -> (r: ClusterNode)
        ensures
            same_node(r, public_part(*self)),
    {
        ClusterNode {
            id: self.id,
            index: self.index,
            is_local: self.is_local,
            addr: self.addr.clone(),
            status: self.status,
        }
    }
}

impl From<ClusterInnerNode> for ClusterNode {
    fn from(value: ClusterInnerNode) -> (r: Self) {
        ClusterNode {
            id: value.id,
            index: value.index,
            is_local: value.is_local,
            addr: value.addr,
            status: value.status,
        }
    }
}

impl vstd::std_specs::convert::FromSpecImpl<ClusterInnerNode> for ClusterNode {
    open spec fn obeys_from_spec() -> bool {
        true
    }

    open spec fn from_spec(v: ClusterInnerNode) -> ClusterNode {
        public_part(v)
    }
}

} // verus!
