use vstd::prelude::*;

use crate::node::{public_part, same_inner_node, same_node, ClusterInnerNode, ClusterNode, NodeStatus};

verus! {

/// Some record of `s` has the id `id`.
pub open spec fn has_id(s: Seq<ClusterInnerNode>, id: u64) -> bool {
    exists|i: int| 0 <= i < s.len() && #[trigger] s[i].id == id
}

/// The position of the record with id `id` in `s` (meaningful where `has_id(s, id)`).
pub open spec fn position_of(s: Seq<ClusterInnerNode>, id: u64) -> int {
    choose|i: int| 0 <= i < s.len() && #[trigger] s[i].id == id
}

/// Ids strictly increase along `s`, so each id occurs once.
pub open spec fn ids_ascending(s: Seq<ClusterInnerNode>) -> bool {
    forall|i: int, j: int| 0 <= i < j < s.len() ==> #[trigger] s[i].id < #[trigger] s[j].id
}

/// Each record's index is its position: the indices are exactly `0..n`.
pub open spec fn indices_dense(s: Seq<ClusterInnerNode>) -> bool {
    forall|i: int| 0 <= i < s.len() ==> #[trigger] s[i].index == i
}

/// A well-formed node set for the process whose own id is `this_id`: ordered by
/// ascending id, densely indexed, the local flag set exactly on `this_id`, a peer
/// channel exactly on the other records, and the local record present unless the
/// set is empty.
pub open spec fn valid_node_set(s: Seq<ClusterInnerNode>, this_id: u64) -> bool {
    &&& ids_ascending(s)
    &&& indices_dense(s)
    &&& forall|i: int|
        0 <= i < s.len() ==> (#[trigger] s[i]).is_local == (s[i].id == this_id)
            && s[i].has_sync_sender == !s[i].is_local
    &&& (s.len() == 0 || has_id(s, this_id))
}

/// The public record that stands for this process when the set holds none: index
/// 0, local, no address, `Valid`.
pub open spec fn is_local_placeholder(r: ClusterNode, this_id: u64) -> bool {
    &&& r.id == this_id
    &&& r.index == 0
    &&& r.is_local
    &&& r.addr@.len() == 0
    &&& r.status == NodeStatus::Valid
}

/// The inner record that stands for this process when the set holds none.
pub open spec fn is_synthesized_local(r: ClusterInnerNode, this_id: u64) -> bool {
    is_local_placeholder(public_part(r), this_id) && !r.has_sync_sender
}

/// Some entry of the snapshot has the id `id`.
pub open spec fn in_snapshot(nodes: Seq<(u64, String)>, id: u64) -> bool {
    exists|k: int| 0 <= k < nodes.len() && #[trigger] nodes[k].0 == id
}

/// No id occurs twice in the snapshot.
pub open spec fn snapshot_ids_unique(nodes: Seq<(u64, String)>) -> bool {
    forall|k: int, l: int| 0 <= k < l < nodes.len() ==> #[trigger] nodes[k].0 != #[trigger] nodes[l].0
}

/// Every id of the snapshot that `old` does not hold comes with a non-empty address.
pub open spec fn new_addresses_present(old: Seq<ClusterInnerNode>, nodes: Seq<(u64, String)>) -> bool {
    forall|k: int|
        0 <= k < nodes.len() && !has_id(old, #[trigger] nodes[k].0) ==> nodes[k].1@.len() > 0
}

/// A snapshot that reconciliation applies to the node set `old`.
pub open spec fn snapshot_accepted(old: Seq<ClusterInnerNode>, nodes: Seq<(u64, String)>) -> bool {
    snapshot_ids_unique(nodes) && new_addresses_present(old, nodes)
}

/// `r` is what reconciling `old` with the snapshot `nodes` makes of the id `r.id`:
/// an id of the snapshot takes the snapshot's address and keeps its old status
/// (a new one is `Valid`); any other id is the local one, synthesized.
pub open spec fn record_for(
    old: Seq<ClusterInnerNode>,
    nodes: Seq<(u64, String)>,
    this_id: u64,
    r: ClusterInnerNode,
) -> bool {
    &&& r.is_local == (r.id == this_id)
    &&& r.has_sync_sender == !r.is_local
    &&& if in_snapshot(nodes, r.id) {
        &&& forall|k: int| 0 <= k < nodes.len() && #[trigger] nodes[k].0 == r.id ==> r.addr@ == nodes[k].1@
        &&& r.status == (if has_id(old, r.id) {
            old[position_of(old, r.id)].status
        } else {
            NodeStatus::Valid
        })
    } else {
        &&& r.id == this_id
        &&& r.addr@.len() == 0
        &&& r.status == NodeStatus::Valid
    }
}

/// `new` is the node set that reconciling `old` with the snapshot `nodes` yields:
/// ordered and densely indexed, holding exactly the snapshot's ids and `this_id`,
/// each record as `record_for` says.
pub open spec fn reconciled(
    old: Seq<ClusterInnerNode>,
    nodes: Seq<(u64, String)>,
    this_id: u64,
    new: Seq<ClusterInnerNode>,
) -> bool {
    &&& ids_ascending(new)
    &&& indices_dense(new)
    &&& forall|i: int| 0 <= i < new.len() ==> record_for(old, nodes, this_id, #[trigger] new[i])
    &&& forall|k: int| 0 <= k < nodes.len() ==> has_id(new, #[trigger] nodes[k].0)
    &&& has_id(new, this_id)
}

/// What reconciling `old` with the snapshot `nodes` owes: the result `r` is `Ok`
/// exactly when the snapshot is accepted, and then `new` is the reconciled set and
/// `r` the channel changes; an error leaves the set as it was and names an id
/// that caused it.
pub open spec fn update_outcome(
    old: Seq<ClusterInnerNode>,
    nodes: Seq<(u64, String)>,
    this_id: u64,
    new: Seq<ClusterInnerNode>,
    r: Result<ChannelChanges, UpdateError>,
) -> bool {
    &&& r is Ok <==> snapshot_accepted(old, nodes)
    &&& match r {
        Ok(ch) => {
            &&& reconciled(old, nodes, this_id, new)
            &&& channel_changes_for(old, nodes, this_id, ch)
        },
        Err(e) => {
            &&& new == old
            &&& match e {
                UpdateError::DuplicateId(id) => exists|k: int, l: int|
                    0 <= k < l < nodes.len() && #[trigger] nodes[k].0 == id && #[trigger] nodes[l].0 == id,
                UpdateError::EmptyAddress(id) => exists|k: int|
                    0 <= k < nodes.len() && #[trigger] nodes[k].0 == id && !has_id(old, id)
                        && nodes[k].1@.len() == 0,
            }
        },
    }
}

/// `r` is the local record of the set `s`: the stored one, or while `s` holds
/// none, the synthesized one.
pub open spec fn this_node_outcome(s: Seq<ClusterInnerNode>, this_id: u64, r: ClusterInnerNode) -> bool {
    if has_id(s, this_id) {
        same_inner_node(r, s[position_of(s, this_id)])
    } else {
        is_synthesized_local(r, this_id)
    }
}

/// `r` is the public form of the local record of the set `s`.
pub open spec fn this_public_node_outcome(s: Seq<ClusterInnerNode>, this_id: u64, r: ClusterNode) -> bool {
    if has_id(s, this_id) {
        same_node(r, public_part(s[position_of(s, this_id)]))
    } else {
        is_local_placeholder(r, this_id)
    }
}

/// `r` lists the set `s` in its order as public records; an empty set is
/// listed as the synthesized local record alone.
pub open spec fn all_nodes_outcome(s: Seq<ClusterInnerNode>, this_id: u64, r: Seq<ClusterNode>) -> bool {
    if s.len() == 0 {
        r.len() == 1 && is_local_placeholder(r[0], this_id)
    } else {
        &&& r.len() == s.len()
        &&& forall|i: int| 0 <= i < s.len() ==> same_node(#[trigger] r[i], public_part(s[i]))
    }
}

/// The ids, in the order of `s`, of the records that a broadcast reaches: those
/// that are not local and whose status is `Valid`.
pub open spec fn peers_to_notify(s: Seq<ClusterInnerNode>) -> Seq<u64>
    decreases s.len(),
{
    if s.len() == 0 {
        Seq::empty()
    } else {
        let rest = peers_to_notify(s.drop_last());
        if !s.last().is_local && s.last().status == NodeStatus::Valid {
            rest.push(s.last().id)
        } else {
            rest
        }
    }
}

/// The peer channels that a reconciliation opens and closes.
#[derive(Debug)]
pub struct ChannelChanges {
    /// Ids of the removed peers whose channels are torn down.
    pub stopped: Vec<u64>,
    /// Ids and addresses of the admitted peers that get a new channel.
    pub started: Vec<(u64, String)>,
}

/// `ch` closes the channel of every peer that leaves and opens one for every peer
/// that arrives, with its address, and nothing else.
pub open spec fn channel_changes_for(
    old: Seq<ClusterInnerNode>,
    nodes: Seq<(u64, String)>,
    this_id: u64,
    ch: ChannelChanges,
) -> bool {
    &&& forall|id: u64|
        ch.stopped@.contains(id) <==> (has_id(old, id) && id != this_id && !in_snapshot(nodes, id))
    &&& forall|i: int|
        0 <= i < ch.started@.len() ==> {
            let (id, addr) = #[trigger] ch.started@[i];
            &&& in_snapshot(nodes, id)
            &&& !has_id(old, id)
            &&& id != this_id
            &&& forall|k: int| 0 <= k < nodes.len() && #[trigger] nodes[k].0 == id ==> addr@ == nodes[k].1@
        }
    &&& forall|k: int|
        0 <= k < nodes.len() && !has_id(old, #[trigger] nodes[k].0) && nodes[k].0 != this_id
            ==> exists|i: int| 0 <= i < ch.started@.len() && #[trigger] ch.started@[i].0 == nodes[k].0
}

/// Why a membership snapshot was rejected.
#[derive(Debug, Clone, Copy, PartialEq, Eq, Structural)]
pub enum UpdateError {
    /// The id occurs more than once in the snapshot.
    DuplicateId(u64),
    /// The id is new to the node set and its address is empty.
    EmptyAddress(u64),
}

/// The position of the record with id `id` in `s`, if there is one.
fn find_node(s: &Vec<ClusterInnerNode>, id: u64) -> (r: Option<usize>)
    ensures
        match r {
            Some(p) => p < s@.len() && s@[p as int].id == id,
            None => !has_id(s@, id),
        },
{
    let mut i: usize = 0;
    while i < s.len()
        invariant
            i <= s@.len(),
            forall|j: int| 0 <= j < i ==> s@[j].id != id,
        decreases s@.len() - i,
    {
        if s[i].id == id {
            return Some(i);
        }
        i += 1;
    }
    None
}

/// Whether the snapshot holds the id `id`.
fn snapshot_contains(nodes: &Vec<(u64, String)>, id: u64) -> (r: bool)
    ensures
        r == in_snapshot(nodes@, id),
{
    let mut k: usize = 0;
    while k < nodes.len()
        invariant
            k <= nodes@.len(),
            forall|j: int| 0 <= j < k ==> nodes@[j].0 != id,
        decreases nodes@.len() - k,
    {
        if nodes[k].0 == id {
            return true;
        }
        k += 1;
    }
    false
}

proof fn lemma_insert_has_id(s: Seq<ClusterInnerNode>, p: int, x: ClusterInnerNode)
    requires
        0 <= p <= s.len(),
    ensures
        forall|id: u64| has_id(s.insert(p, x), id) <==> (has_id(s, id) || id == x.id),
{
    let t = s.insert(p, x);
    assert forall|id: u64| has_id(t, id) <==> (has_id(s, id) || id == x.id) by {
        if has_id(t, id) {
            let i = choose|i: int| 0 <= i < t.len() && #[trigger] t[i].id == id;
            if i < p {
                assert(s[i].id == id);
            } else if i > p {
                assert(s[i - 1].id == id);
            }
        }
        if has_id(s, id) {
            let i = choose|i: int| 0 <= i < s.len() && #[trigger] s[i].id == id;
            if i < p {
                assert(t[i].id == id);
            } else {
                assert(t[i + 1].id == id);
            }
        }
        if id == x.id {
            assert(t[p].id == id);
        }
    }
}

/// Inserts `rec` where its id keeps the ids ascending; returns the position.
fn insert_sorted(v: &mut Vec<ClusterInnerNode>, rec: ClusterInnerNode) -> (p: usize)
    requires
        ids_ascending(old(v)@),
        !has_id(old(v)@, rec.id),
    ensures
        p <= old(v)@.len(),
        final(v)@ == old(v)@.insert(p as int, rec),
        ids_ascending(final(v)@),
{
    let mut p: usize = 0;
    while p < v.len() && v[p].id < rec.id
        invariant
            p <= v@.len(),
            forall|j: int| 0 <= j < p ==> v@[j].id < rec.id,
        decreases v@.len() - p,
    {
        p += 1;
    }
    proof {
        if p < v@.len() {
            assert(v@[p as int].id != rec.id);
        }
    }
    let ghost before = v@;
    v.insert(p, rec);
    proof {
        let after = v@;
        assert forall|i: int, j: int| 0 <= i < j < after.len() implies #[trigger] after[i].id
            < #[trigger] after[j].id by {
            if j < p {
            } else if j == p {
            } else if i < p {
                assert(before[p as int].id > rec.id);
            } else if i == p {
                assert(before[p as int].id > rec.id);
                if j - 1 > p {
                    assert(before[p as int].id < before[j - 1].id);
                }
            } else {
                assert(before[i - 1].id < before[j - 1].id);
            }
        }
    }
    p
}

/// A command to the membership store.
#[derive(Debug)]
pub enum NodeManageRequest {
    /// Replace the node set by this snapshot of `(id, address)` pairs.
    UpdateNodes(Vec<(u64, String)>),
    GetThisNode,
    GetAllNodes,
    /// Name the peers that a broadcast goes to.
    SendToOtherNodes,
}

/// The store's answer to a command.
#[derive(Debug)]
pub enum NodeManageResponse {
    Update(Result<ChannelChanges, UpdateError>),
    ThisNode(ClusterNode),
    AllNodes(Vec<ClusterNode>),
    /// The ids whose peer channels receive the broadcast.
    Deliver(Vec<u64>),
}

/// The membership state of one process: its own id and the node set, which
/// only the methods below change.
pub struct InnerNodeManage {
    this_id: u64,
    all_nodes: Vec<ClusterInnerNode>,
}

impl InnerNodeManage {
    /// The node set, in ascending id order.
    pub closed spec fn nodes(&self) -> Seq<ClusterInnerNode> {
        self.all_nodes@
    }

    /// The id of this process.
    pub closed spec fn local_id(&self) -> u64 {
        self.this_id
    }

    pub open spec fn wf(&self) -> bool {
        valid_node_set(self.nodes(), self.local_id())
    }

    /// An empty store for the process with id `this_id`.
    pub fn new(this_id: u64) -> (r: Self)
        ensures
            r.wf(),
            r.local_id() == this_id,
            r.nodes().len() == 0,
    {
        InnerNodeManage { this_id, all_nodes: Vec::new() }
    }

    /// The id of this process.
    pub fn this_id(&self) -> (r: u64)
        ensures
            r == self.local_id(),
    {
        self.this_id
    }

    /// Replaces the node set by the snapshot `nodes` plus the local record.
    ///
    /// A snapshot with a repeated id, or with an empty address for an id that
    /// the set does not hold yet, is rejected and the set left as it was.
    /// Otherwise records of ids outside the snapshot go, the others keep their
    /// status and take the snapshot's address, new ids come in `Valid`, the
    /// local record is synthesized if the snapshot lacks it, and the indices are
    /// recomputed in ascending id order. The result names the peer channels to
    /// close and to open.
    pub fn update_nodes(&mut self, nodes: Vec<(u64, String)>) -> (r: Result<ChannelChanges, UpdateError>)
        requires
            old(self).wf(),
        ensures
            final(self).wf(),
            final(self).local_id() == old(self).local_id(),
            update_outcome(old(self).nodes(), nodes@, old(self).local_id(), final(self).nodes(), r),
    {
        let ghost old_nodes = self.all_nodes@;
        let this_id = self.this_id;
        let n = nodes.len();
        let mut k: usize = 0;
        while k < n
            invariant
                k <= n,
                n == nodes@.len(),
                forall|a: int, b: int| 0 <= a < b < n && a < k ==> #[trigger] nodes@[a].0 != #[trigger] nodes@[b].0,
                self.all_nodes@ == old_nodes,
                self.this_id == this_id,
                valid_node_set(old_nodes, this_id),
            decreases n - k,
        {
            let mut l: usize = k + 1;
            while l < n
                invariant
                    k < n,
                    k + 1 <= l <= n,
                    n == nodes@.len(),
                    forall|a: int, b: int| 0 <= a < b < n && a < k ==> #[trigger] nodes@[a].0 != #[trigger] nodes@[b].0,
                    forall|b: int| k < b < l ==> nodes@[k as int].0 != #[trigger] nodes@[b].0,
                    self.all_nodes@ == old_nodes,
                    self.this_id == this_id,
                    valid_node_set(old_nodes, this_id),
                decreases n - l,
            {
                if nodes[k].0 == nodes[l].0 {
                    return Err(UpdateError::DuplicateId(nodes[k].0));
                }
                l += 1;
            }
            k += 1;
        }
        let mut k: usize = 0;
        while k < n
            invariant
                k <= n,
                n == nodes@.len(),
                self.all_nodes@ == old_nodes,
                self.this_id == this_id,
                valid_node_set(old_nodes, this_id),
                forall|a: int| 0 <= a < k && !has_id(old_nodes, #[trigger] nodes@[a].0) ==> nodes@[a].1@.len() > 0,
            decreases n - k,
        {
            if nodes[k].1.as_str().is_empty() && find_node(&self.all_nodes, nodes[k].0).is_none() {
                return Err(UpdateError::EmptyAddress(nodes[k].0));
            }
            k += 1;
        }
        assert(snapshot_accepted(old_nodes, nodes@));

        let stopped = departing_peers(&self.all_nodes, this_id, &nodes);
        let (new_nodes, started) = reconcile(&self.all_nodes, this_id, &nodes);
        self.all_nodes = new_nodes;
        Ok(ChannelChanges { stopped, started })
    }

    /// The local record: the stored one, or a synthesized one while the set is empty.
    pub fn get_this_node(&self) -> (r: ClusterInnerNode)
        requires
            self.wf(),
        ensures
            this_node_outcome(self.nodes(), self.local_id(), r),
    {
        match find_node(&self.all_nodes, self.this_id) {
            Some(p) => {
                proof {
                    let s = self.all_nodes@;
                    assert(has_id(s, self.this_id)) by {
                        assert(s[p as int].id == self.this_id);
                    }
                    let q = position_of(s, self.this_id);
                    assert(q == p) by {
                        if q < p {
                            assert(s[q].id < s[p as int].id);
                        } else if q > p {
                            assert(s[p as int].id < s[q].id);
                        }
                    }
                }
                self.all_nodes[p].duplicate()
            },
            None => ClusterInnerNode {
                id: self.this_id,
                index: 0,
                is_local: true,
                addr: String::new(),
                status: NodeStatus::Valid,
                has_sync_sender: false,
            },
        }
    }

    /// All records in ascending id order; while the set is empty, the
    /// synthesized local record alone.
    pub fn get_all_nodes(&self) -> (r: Vec<ClusterNode>)
        requires
            self.wf(),
        ensures
            all_nodes_outcome(self.nodes(), self.local_id(), r@),
    {
        if self.all_nodes.len() == 0 {
            let this_node = self.get_this_node();
            let mut r: Vec<ClusterNode> = Vec::new();
            r.push(ClusterNode::from(this_node));
            r
        } else {
            let mut r: Vec<ClusterNode> = Vec::new();
            let mut i: usize = 0;
            while i < self.all_nodes.len()
                invariant
                    i <= self.all_nodes@.len(),
                    r@.len() == i,
                    forall|j: int| 0 <= j < i ==> same_node(#[trigger] r@[j], public_part(self.all_nodes@[j])),
                decreases self.all_nodes@.len() - i,
            {
                r.push(self.all_nodes[i].to_cluster_node());
                i += 1;
            }
            r
        }
    }

    /// The ids of the peers that a broadcast is pushed to, in ascending order:
    /// every record that is not local and whose status is `Valid`.
    pub fn send_to_other_nodes(&self) -> (r: Vec<u64>)
        ensures
            r@ == peers_to_notify(self.nodes()),
    {
        let mut r: Vec<u64> = Vec::new();
        let mut i: usize = 0;
        while i < self.all_nodes.len()
            invariant
                i <= self.all_nodes@.len(),
                r@ == peers_to_notify(self.all_nodes@.subrange(0, i as int)),
            decreases self.all_nodes@.len() - i,
        {
            let ghost s = self.all_nodes@;
            proof {
                assert(s.subrange(0, i + 1).drop_last() =~= s.subrange(0, i as int));
            }
            if !self.all_nodes[i].is_local && self.all_nodes[i].status == NodeStatus::Valid {
                r.push(self.all_nodes[i].id);
            }
            i += 1;
        }
        proof {
            assert(self.all_nodes@.subrange(0, self.all_nodes@.len() as int) =~= self.all_nodes@);
        }
        r
    }

    /// Sets the status of the record with id `id`; returns whether there is one.
    /// Nothing else changes.
    pub fn set_status(&mut self, id: u64, status: NodeStatus) -> (r: bool)
        requires
            old(self).wf(),
        ensures
            final(self).wf(),
            final(self).local_id() == old(self).local_id(),
            r == has_id(old(self).nodes(), id),
            final(self).nodes().len() == old(self).nodes().len(),
            forall|i: int| 0 <= i < old(self).nodes().len() ==> {
                let a = #[trigger] final(self).nodes()[i];
                let b = old(self).nodes()[i];
                &&& a.id == b.id && a.index == b.index && a.is_local == b.is_local
                &&& a.addr@ == b.addr@ && a.has_sync_sender == b.has_sync_sender
                &&& a.status == (if b.id == id { status } else { b.status })
            },
    {
        match find_node(&self.all_nodes, id) {
            Some(p) => {
                let ghost before = self.all_nodes@;
                let mut rec = self.all_nodes[p].duplicate();
                rec.status = status;
                self.all_nodes.set(p, rec);
                proof {
                    assert forall|i: int| 0 <= i < before.len() && i != p implies before[i].id != id by {
                        if i < p {
                            assert(before[i].id < before[p as int].id);
                        } else {
                            assert(before[p as int].id < before[i].id);
                        }
                    }
                    assert(self.all_nodes@[p as int].id == id);
                    let t = self.this_id;
                    let w = position_of(before, t);
                    assert(self.all_nodes@[w].id == before[w].id);
                    assert(valid_node_set(self.all_nodes@, t));
                }
                true
            },
            None => false,
        }
    }

    /// Applies one command; only `UpdateNodes` changes the node set.
    pub fn handle(&mut self, msg: NodeManageRequest) -> (r: NodeManageResponse)
        requires
            old(self).wf(),
        ensures
            final(self).wf(),
            final(self).local_id() == old(self).local_id(),
            !(msg is UpdateNodes) ==> final(self).nodes() == old(self).nodes(),
            match msg {
                NodeManageRequest::UpdateNodes(nodes) => match r {
                    NodeManageResponse::Update(u) => update_outcome(
                        old(self).nodes(),
                        nodes@,
                        old(self).local_id(),
                        final(self).nodes(),
                        u,
                    ),
                    _ => false,
                },
                NodeManageRequest::GetThisNode => match r {
                    NodeManageResponse::ThisNode(n) => this_public_node_outcome(old(self).nodes(), old(self).local_id(), n),
                    _ => false,
                },
                NodeManageRequest::GetAllNodes => match r {
                    NodeManageResponse::AllNodes(v) => all_nodes_outcome(old(self).nodes(), old(self).local_id(), v@),
                    _ => false,
                },
                NodeManageRequest::SendToOtherNodes => match r {
                    NodeManageResponse::Deliver(ids) => ids@ == peers_to_notify(old(self).nodes()),
                    _ => false,
                },
            },
    {
        match msg {
            NodeManageRequest::UpdateNodes(nodes) => NodeManageResponse::Update(self.update_nodes(nodes)),
            NodeManageRequest::GetThisNode => NodeManageResponse::ThisNode(ClusterNode::from(self.get_this_node())),
            NodeManageRequest::GetAllNodes => NodeManageResponse::AllNodes(self.get_all_nodes()),
            NodeManageRequest::SendToOtherNodes => NodeManageResponse::Deliver(self.send_to_other_nodes()),
        }
    }

    /// Sets each record's index to its position, leaving the rest unchanged.
    fn update_nodes_index(v: &mut Vec<ClusterInnerNode>)
        ensures
            final(v)@.len() == old(v)@.len(),
            indices_dense(final(v)@),
            forall|i: int| 0 <= i < final(v)@.len() ==> {
                let a = #[trigger] final(v)@[i];
                let b = old(v)@[i];
                a.id == b.id && a.is_local == b.is_local && a.addr@ == b.addr@ && a.status == b.status
                    && a.has_sync_sender == b.has_sync_sender
            },
    {
        let ghost orig = v@;
        let mut i: usize = 0;
        while i < v.len()
            invariant
                i <= v@.len(),
                v@.len() == orig.len(),
                forall|j: int| 0 <= j < i ==> (#[trigger] v@[j]).index == j,
                forall|j: int| 0 <= j < v@.len() ==> {
                    let a = #[trigger] v@[j];
                    let b = orig[j];
                    a.id == b.id && a.is_local == b.is_local && a.addr@ == b.addr@ && a.status == b.status
                        && a.has_sync_sender == b.has_sync_sender
                },
            decreases v@.len() - i,
        {
            let mut rec = v[i].duplicate();
            rec.index = i as u64;
            v.set(i, rec);
            i += 1;
        }
    }
}


/// The ids of `old` other than `this_id` that the snapshot drops.
fn departing_peers(old: &Vec<ClusterInnerNode>, this_id: u64, nodes: &Vec<(u64, String)>) -> (stopped: Vec<u64>)
    requires
        valid_node_set(old@, this_id),
    ensures
        forall|id: u64| stopped@.contains(id) <==> (has_id(old@, id) && id != this_id && !in_snapshot(nodes@, id)),
{
    let ghost old_nodes = old@;
    let mut stopped: Vec<u64> = Vec::new();
    let mut i: usize = 0;
    while i < old.len()
        invariant
            i <= old_nodes.len(),
            old@ == old_nodes,
            valid_node_set(old_nodes, this_id),
            forall|x: u64| stopped@.contains(x) ==> has_id(old_nodes, x) && x != this_id && !in_snapshot(nodes@, x),
            forall|j: int| 0 <= j < i && (#[trigger] old_nodes[j]).id != this_id && !in_snapshot(nodes@, old_nodes[j].id)
                ==> stopped@.contains(old_nodes[j].id),
        decreases old_nodes.len() - i,
    {
        let id = old[i].id;
        let ghost stopped_before = stopped@;
        if !old[i].is_local && !snapshot_contains(&nodes, id) {
            stopped.push(id);
            proof {
                assert(stopped@.last() == id);
                assert(old_nodes[i as int].id == id);
                assert forall|x: u64| stopped_before.contains(x) implies stopped@.contains(x) by {
                    let t = choose|t: int| 0 <= t < stopped_before.len() && stopped_before[t] == x;
                    assert(stopped@[t] == x);
                }
                assert forall|x: u64| stopped@.contains(x) implies has_id(old_nodes, x) && x != this_id
                    && !in_snapshot(nodes@, x) by {
                    let t = choose|t: int| 0 <= t < stopped@.len() && stopped@[t] == x;
                    if t < stopped_before.len() {
                        assert(stopped_before[t] == x);
                    }
                }
            }
        }
        i += 1;
    }

    proof {
        assert forall|id: u64| stopped@.contains(id) <==> (has_id(old_nodes, id) && id != this_id && !in_snapshot(nodes@, id)) by {
            if has_id(old_nodes, id) && id != this_id && !in_snapshot(nodes@, id) {
                let j = choose|j: int| 0 <= j < old_nodes.len() && #[trigger] old_nodes[j].id == id;
                assert(stopped@.contains(old_nodes[j].id));
            }
        }
    }
    stopped
}

/// The node set that reconciling `old` with the snapshot yields, and the peers
/// it admits.
fn reconcile(old: &Vec<ClusterInnerNode>, this_id: u64, nodes: &Vec<(u64, String)>) -> (r: (Vec<ClusterInnerNode>, Vec<(u64, String)>))
    requires
        valid_node_set(old@, this_id),
        snapshot_accepted(old@, nodes@),
    ensures
        reconciled(old@, nodes@, this_id, r.0@),
        valid_node_set(r.0@, this_id),
        forall|i: int|
            0 <= i < r.1@.len() ==> {
                let (id, addr) = #[trigger] r.1@[i];
                &&& in_snapshot(nodes@, id)
                &&& !has_id(old@, id)
                &&& id != this_id
                &&& forall|k: int| 0 <= k < nodes@.len() && #[trigger] nodes@[k].0 == id ==> addr@ == nodes@[k].1@
            },
        forall|k: int|
            0 <= k < nodes@.len() && !has_id(old@, #[trigger] nodes@[k].0) && nodes@[k].0 != this_id
                ==> exists|i: int| 0 <= i < r.1@.len() && #[trigger] r.1@[i].0 == nodes@[k].0,
{
    let ghost old_nodes = old@;
    let n = nodes.len();
    let mut new_nodes: Vec<ClusterInnerNode> = Vec::new();
    let mut started: Vec<(u64, String)> = Vec::new();
    let mut j: usize = 0;
    while j < n
        invariant
            j <= n,
            n == nodes@.len(),
            old@ == old_nodes,
            valid_node_set(old_nodes, this_id),
            snapshot_accepted(old_nodes, nodes@),
            ids_ascending(new_nodes@),
            forall|i: int| 0 <= i < new_nodes@.len() ==> record_for(old_nodes, nodes@, this_id, #[trigger] new_nodes@[i]),
            forall|i: int, b: int| 0 <= i < new_nodes@.len() && j <= b < n ==> #[trigger] new_nodes@[i].id != #[trigger] nodes@[b].0,
            forall|a: int| 0 <= a < j ==> has_id(new_nodes@, #[trigger] nodes@[a].0),
            forall|i: int| 0 <= i < started@.len() ==> {
                let (id, addr) = #[trigger] started@[i];
                &&& in_snapshot(nodes@, id)
                &&& !has_id(old_nodes, id)
                &&& id != this_id
                &&& forall|k: int| 0 <= k < nodes@.len() && #[trigger] nodes@[k].0 == id ==> addr@ == nodes@[k].1@
            },
            forall|a: int| 0 <= a < j && !has_id(old_nodes, #[trigger] nodes@[a].0) && nodes@[a].0 != this_id
                ==> exists|i: int| 0 <= i < started@.len() && #[trigger] started@[i].0 == nodes@[a].0,
        decreases n - j,
    {
        let id = nodes[j].0;
        let ghost started_before = started@;
        proof {
            assert(in_snapshot(nodes@, id)) by {
                assert(nodes@[j as int].0 == id);
            }
            assert forall|k: int| 0 <= k < nodes@.len() && #[trigger] nodes@[k].0 == id implies k == j by {
                if k < j {
                    assert(nodes@[k].0 != nodes@[j as int].0);
                } else if k > j {
                    assert(nodes@[j as int].0 != nodes@[k].0);
                }
            }
        }
        let rec = match find_node(&old, id) {
            Some(p) => {
                proof {
                    let q = position_of(old_nodes, id);
                    assert(has_id(old_nodes, id)) by {
                        assert(old_nodes[p as int].id == id);
                    }
                    assert(q == p) by {
                        if q < p {
                            assert(old_nodes[q].id < old_nodes[p as int].id);
                        } else if q > p {
                            assert(old_nodes[p as int].id < old_nodes[q].id);
                        }
                    }
                }
                ClusterInnerNode {
                    id,
                    index: 0,
                    is_local: old[p].is_local,
                    addr: nodes[j].1.clone(),
                    status: old[p].status,
                    has_sync_sender: old[p].has_sync_sender,
                }
            },
            None => {
                let is_local = id == this_id;
                if !is_local {
                    started.push((id, nodes[j].1.clone()));
                    proof {
                        assert(started@[started@.len() - 1].0 == id);
                    }
                }
                ClusterInnerNode {
                    id,
                    index: 0,
                    is_local,
                    addr: nodes[j].1.clone(),
                    status: NodeStatus::Valid,
                    has_sync_sender: !is_local,
                }
            },
        };
        assert(record_for(old_nodes, nodes@, this_id, rec));
        proof {
            assert(started_before.is_prefix_of(started@));
            assert forall|a: int| 0 <= a < j + 1 && !has_id(old_nodes, #[trigger] nodes@[a].0) && nodes@[a].0 != this_id
                implies exists|i: int| 0 <= i < started@.len() && #[trigger] started@[i].0 == nodes@[a].0 by {
                if a < j {
                    let i = choose|i: int| 0 <= i < started_before.len() && #[trigger] started_before[i].0 == nodes@[a].0;
                    assert(started@[i] == started_before[i]);
                } else {
                    assert(started@[started@.len() - 1].0 == id);
                }
            }
        }
        proof {
            if has_id(new_nodes@, id) {
                let i = choose|i: int| 0 <= i < new_nodes@.len() && #[trigger] new_nodes@[i].id == id;
                assert(new_nodes@[i].id != nodes@[j as int].0);
            }
        }
        let ghost before = new_nodes@;
        let p = insert_sorted(&mut new_nodes, rec);
        proof {
            lemma_insert_has_id(before, p as int, rec);
            assert forall|i: int| 0 <= i < new_nodes@.len() implies record_for(old_nodes, nodes@, this_id, #[trigger] new_nodes@[i]) by {
                if i < p {
                    assert(new_nodes@[i] == before[i]);
                } else if i > p {
                    assert(new_nodes@[i] == before[i - 1]);
                }
            }
            assert forall|i: int, b: int| 0 <= i < new_nodes@.len() && j + 1 <= b < n implies #[trigger] new_nodes@[i].id != #[trigger] nodes@[b].0 by {
                if i < p {
                    assert(new_nodes@[i] == before[i]);
                } else if i > p {
                    assert(new_nodes@[i] == before[i - 1]);
                } else {
                    assert(nodes@[j as int].0 != nodes@[b].0);
                }
            }
            assert forall|a: int| 0 <= a < j + 1 implies has_id(new_nodes@, #[trigger] nodes@[a].0) by {
                if a < j {
                    assert(has_id(before, nodes@[a].0));
                }
            }
        }
        j += 1;
    }

    let found = find_node(&new_nodes, this_id);
    if let Some(q) = found {
        assert(new_nodes@[q as int].id == this_id);
    } else {
        let local = ClusterInnerNode {
            id: this_id,
            index: 0,
            is_local: true,
            addr: String::new(),
            status: NodeStatus::Valid,
            has_sync_sender: false,
        };
        proof {
            if in_snapshot(nodes@, this_id) {
                let k = choose|k: int| 0 <= k < nodes@.len() && #[trigger] nodes@[k].0 == this_id;
                assert(has_id(new_nodes@, nodes@[k].0));
            }
        }
        let ghost before = new_nodes@;
        let p = insert_sorted(&mut new_nodes, local);
        proof {
            lemma_insert_has_id(before, p as int, local);
            assert forall|i: int| 0 <= i < new_nodes@.len() implies record_for(old_nodes, nodes@, this_id, #[trigger] new_nodes@[i]) by {
                if i < p {
                    assert(new_nodes@[i] == before[i]);
                } else if i > p {
                    assert(new_nodes@[i] == before[i - 1]);
                }
            }
            assert forall|a: int| 0 <= a < n implies has_id(new_nodes@, #[trigger] nodes@[a].0) by {
                assert(has_id(before, nodes@[a].0));
            }
        }
    }
    let ghost pre = new_nodes@;
    InnerNodeManage::update_nodes_index(&mut new_nodes);
    proof {
        assert forall|i: int| 0 <= i < new_nodes@.len() implies record_for(old_nodes, nodes@, this_id, #[trigger] new_nodes@[i]) by {
            assert(record_for(old_nodes, nodes@, this_id, pre[i]));
        }
        assert forall|i: int, j: int| 0 <= i < j < new_nodes@.len() implies #[trigger] new_nodes@[i].id < #[trigger] new_nodes@[j].id by {
            assert(pre[i].id < pre[j].id);
        }
        assert forall|id: u64| has_id(pre, id) implies has_id(new_nodes@, id) by {
            let i = choose|i: int| 0 <= i < pre.len() && #[trigger] pre[i].id == id;
            assert(new_nodes@[i].id == id);
        }
        assert forall|a: int| 0 <= a < n implies has_id(new_nodes@, #[trigger] nodes@[a].0) by {
            assert(has_id(pre, nodes@[a].0));
        }
        assert(has_id(pre, this_id));
    }
    proof {
        assert(reconciled(old_nodes, nodes@, this_id, new_nodes@));
        assert(valid_node_set(new_nodes@, this_id));
        assert forall|k: int|
            0 <= k < nodes@.len() && !has_id(old@, #[trigger] nodes@[k].0) && nodes@[k].0 != this_id
                implies exists|i: int| 0 <= i < started@.len() && #[trigger] started@[i].0 == nodes@[k].0 by {
            assert(!has_id(old_nodes, nodes@[k].0));
        }
    }
    let r = (new_nodes, started);
    proof {
        assert forall|k: int|
            0 <= k < nodes@.len() && !has_id(old@, #[trigger] nodes@[k].0) && nodes@[k].0 != this_id
                implies exists|i: int| 0 <= i < r.1@.len() && #[trigger] r.1@[i].0 == nodes@[k].0 by {
            let i = choose|i: int| 0 <= i < started@.len() && #[trigger] started@[i].0 == nodes@[k].0;
            assert(r.1@[i].0 == nodes@[k].0);
        }
    }
    r
}

} // verus!
