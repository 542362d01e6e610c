use vstd::prelude::*;

use crate::node::{same_node, ClusterNode};

verus! {

/// Where a key is served: on this node, or on the peer at an address. The
/// number is the slot index of the owning node.
#[derive(Debug)]
pub enum NamingRouteAddr {
    Local(u64),
    Remote(u64, String),
}

/// The routing decision for a key whose hash is `hash` over the node list `s`:
/// slot `hash mod n`, local or remote as the node in that slot is; an empty list
/// routes to local slot 0.
pub open spec fn route_for(s: Seq<ClusterNode>, hash: u64, r: NamingRouteAddr) -> bool {
    if s.len() == 0 {
        r == NamingRouteAddr::Local(0)
    } else {
        let i = hash as int % s.len() as int;
        if s[i].is_local {
            r == NamingRouteAddr::Local(i as u64)
        } else {
            match r {
                NamingRouteAddr::Remote(j, addr) => j == i && addr@ == s[i].addr@,
                _ => false,
            }
        }
    }
}

/// The records of `s` that are not local, in their order.
pub open spec fn other_nodes(s: Seq<ClusterNode>) -> Seq<ClusterNode>
    decreases s.len(),
{
    if s.len() == 0 {
        Seq::empty()
    } else {
        let rest = other_nodes(s.drop_last());
        if s.last().is_local {
            rest
        } else {
            rest.push(s.last())
        }
    }
}

/// Routing over one point-in-time snapshot of the membership, as the store's
/// `GetAllNodes` returned it.
#[derive(Debug)]
pub struct NodeManage {
    nodes: Vec<ClusterNode>,
}

impl NodeManage {
    /// The snapshot routed over.
    pub closed spec fn snapshot(&self) -> Seq<ClusterNode> {
        self.nodes@
    }

    pub fn new(nodes: Vec<ClusterNode>) -> (r: Self)
        ensures
            r.snapshot() == nodes@,
    {
        NodeManage { nodes }
    }

    /// Routes a key by its 64-bit hash: slot `hash_value mod n` of the snapshot.
    pub fn route_addr(&self, hash_value: u64) -> (r: NamingRouteAddr)
        ensures
            route_for(self.snapshot(), hash_value, r),
    {
        if self.nodes.len() == 0 {
            NamingRouteAddr::Local(0)
        } else {
            let index = (hash_value % (self.nodes.len() as u64)) as usize;
            let node = &self.nodes[index];
            if node.is_local {
                NamingRouteAddr::Local(index as u64)
            } else {
                NamingRouteAddr::Remote(index as u64, node.addr.clone())
            }
        }
    }

    /// Every node of the snapshot, whatever its status.
    pub fn get_all_valid_nodes(&self) -> (r: Vec<ClusterNode>)
        ensures
            r@.len() == self.snapshot().len(),
            forall|i: int| 0 <= i < r@.len() ==> same_node(#[trigger] r@[i], self.snapshot()[i]),
    {
        let mut r: Vec<ClusterNode> = Vec::new();
        let mut i: usize = 0;
        while i < self.nodes.len()
            invariant
                i <= self.nodes@.len(),
                r@.len() == i,
                forall|j: int| 0 <= j < i ==> same_node(#[trigger] r@[j], self.nodes@[j]),
            decreases self.nodes@.len() - i,
        {
            r.push(self.nodes[i].duplicate());
            i += 1;
        }
        r
    }

    /// The nodes of the snapshot other than the local one, in order.
    pub fn get_other_valid_nodes(&self) -> (r: Vec<ClusterNode>)
        ensures
            r@.len() == other_nodes(self.snapshot()).len(),
            forall|i: int| 0 <= i < r@.len() ==> same_node(#[trigger] r@[i], other_nodes(self.snapshot())[i]),
    {
        let mut r: Vec<ClusterNode> = Vec::new();
        let mut i: usize = 0;
        while i < self.nodes.len()
            invariant
                i <= self.nodes@.len(),
                r@.len() == other_nodes(self.nodes@.subrange(0, i as int)).len(),
                forall|j: int| 0 <= j < r@.len() ==> same_node(#[trigger] r@[j], other_nodes(self.nodes@.subrange(0, i as int))[j]),
            decreases self.nodes@.len() - i,
        {
            let ghost s = self.nodes@;
            proof {
                assert(s.subrange(0, i + 1).drop_last() =~= s.subrange(0, i as int));
            }
            if !self.nodes[i].is_local {
                r.push(self.nodes[i].duplicate());
            }
            i += 1;
        }
        proof {
            assert(self.nodes@.subrange(0, self.nodes@.len() as int) =~= self.nodes@);
        }
        r
    }
}

} // verus!
