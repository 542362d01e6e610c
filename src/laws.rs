use vstd::prelude::*;

use crate::node::{same_inner_node, ClusterInnerNode, NodeStatus};
use crate::store::{
    has_id, ids_ascending, in_snapshot, peers_to_notify, position_of, reconciled, record_for,
    snapshot_accepted, valid_node_set,
};

verus! {

/// Two id-ascending sequences that hold the same ids hold them at the same positions.
proof fn lemma_ascending_same_ids(a: Seq<ClusterInnerNode>, b: Seq<ClusterInnerNode>)
    requires
        ids_ascending(a),
        ids_ascending(b),
        forall|id: u64| has_id(a, id) <==> has_id(b, id),
    ensures
        a.len() == b.len(),
        forall|i: int| 0 <= i < a.len() ==> a[i].id == b[i].id,
    decreases a.len(),
{
    if a.len() == 0 {
        if b.len() > 0 {
            assert(has_id(b, b[0].id));
        }
    } else if b.len() == 0 {
        assert(has_id(a, a[0].id));
    } else {
        let x = a.last().id;
        let y = b.last().id;
        assert(has_id(a, x));
        assert(has_id(b, y));
        let j = choose|j: int| 0 <= j < b.len() && #[trigger] b[j].id == x;
        let i = choose|i: int| 0 <= i < a.len() && #[trigger] a[i].id == y;
        if j < b.len() - 1 {
            assert(b[j].id < b[b.len() - 1].id);
        }
        if i < a.len() - 1 {
            assert(a[i].id < a[a.len() - 1].id);
        }
        assert(x == y);
        let a2 = a.drop_last();
        let b2 = b.drop_last();
        assert forall|id: u64| has_id(a2, id) <==> has_id(b2, id) by {
            if has_id(a2, id) {
                let k = choose|k: int| 0 <= k < a2.len() && #[trigger] a2[k].id == id;
                assert(a[k].id < x);
                assert(has_id(a, id));
                let m = choose|m: int| 0 <= m < b.len() && #[trigger] b[m].id == id;
                assert(m != b.len() - 1);
                assert(b2[m].id == id);
            }
            if has_id(b2, id) {
                let k = choose|k: int| 0 <= k < b2.len() && #[trigger] b2[k].id == id;
                assert(b[k].id < y);
                assert(has_id(b, id));
                let m = choose|m: int| 0 <= m < a.len() && #[trigger] a[m].id == id;
                assert(m != a.len() - 1);
                assert(a2[m].id == id);
            }
        }
        lemma_ascending_same_ids(a2, b2);
        assert forall|i: int| 0 <= i < a.len() implies a[i].id == b[i].id by {
            if i < a.len() - 1 {
                assert(a2[i].id == b2[i].id);
            }
        }
    }
}

/// A reconciled set holds exactly the snapshot's ids and the local id.
proof fn lemma_reconciled_ids(
    old: Seq<ClusterInnerNode>,
    nodes: Seq<(u64, String)>,
    this_id: u64,
    new: Seq<ClusterInnerNode>,
)
    requires
        reconciled(old, nodes, this_id, new),
    ensures
        forall|id: u64| has_id(new, id) <==> (in_snapshot(nodes, id) || id == this_id),
{
    assert forall|id: u64| has_id(new, id) <==> (in_snapshot(nodes, id) || id == this_id) by {
        if has_id(new, id) {
            let i = choose|i: int| 0 <= i < new.len() && #[trigger] new[i].id == id;
            assert(record_for(old, nodes, this_id, new[i]));
        }
        if in_snapshot(nodes, id) {
            let k = choose|k: int| 0 <= k < nodes.len() && #[trigger] nodes[k].0 == id;
            assert(has_id(new, nodes[k].0));
        }
    }
}

/// Applying the same snapshot twice: the second application is accepted too and
/// yields the same records, with the same indices, as the first.
pub proof fn lemma_update_idempotent(
    s0: Seq<ClusterInnerNode>,
    nodes: Seq<(u64, String)>,
    this_id: u64,
    s1: Seq<ClusterInnerNode>,
    s2: Seq<ClusterInnerNode>,
)
    requires
        valid_node_set(s0, this_id),
        snapshot_accepted(s0, nodes),
        reconciled(s0, nodes, this_id, s1),
        reconciled(s1, nodes, this_id, s2),
    ensures
        snapshot_accepted(s1, nodes),
        s2.len() == s1.len(),
        forall|i: int| 0 <= i < s1.len() ==> same_inner_node(#[trigger] s2[i], s1[i]),
{
    lemma_reconciled_ids(s0, nodes, this_id, s1);
    lemma_reconciled_ids(s1, nodes, this_id, s2);
    assert forall|k: int| 0 <= k < nodes.len() implies has_id(s1, #[trigger] nodes[k].0) by {}
    lemma_ascending_same_ids(s1, s2);
    assert forall|i: int| 0 <= i < s1.len() implies same_inner_node(#[trigger] s2[i], s1[i]) by {
        let id = s1[i].id;
        assert(record_for(s0, nodes, this_id, s1[i]));
        assert(record_for(s1, nodes, this_id, s2[i]));
        assert(s2[i].index == i && s1[i].index == i);
        if in_snapshot(nodes, id) {
            let k = choose|k: int| 0 <= k < nodes.len() && #[trigger] nodes[k].0 == id;
            assert(s1[i].addr@ == nodes[k].1@);
            assert(s2[i].addr@ == nodes[k].1@);
            assert(has_id(s1, id));
            let q = position_of(s1, id);
            assert(q == i) by {
                if q < i {
                    assert(s1[q].id < s1[i].id);
                } else if q > i {
                    assert(s1[i].id < s1[q].id);
                }
            }
        } else {
            assert(s1[i].addr@ =~= s2[i].addr@);
        }
    }
}

/// An empty snapshot is accepted and leaves exactly one record: the local one.
pub proof fn lemma_empty_snapshot_keeps_self(
    old: Seq<ClusterInnerNode>,
    this_id: u64,
    new: Seq<ClusterInnerNode>,
)
    requires
        valid_node_set(old, this_id),
        reconciled(old, Seq::<(u64, String)>::empty(), this_id, new),
    ensures
        snapshot_accepted(old, Seq::<(u64, String)>::empty()),
        new.len() == 1,
        new[0].id == this_id,
        new[0].is_local,
        new[0].status == NodeStatus::Valid,
{
    let nodes = Seq::<(u64, String)>::empty();
    let i = choose|i: int| 0 <= i < new.len() && #[trigger] new[i].id == this_id;
    assert forall|j: int| 0 <= j < new.len() implies #[trigger] new[j].id == this_id by {
        assert(record_for(old, nodes, this_id, new[j]));
    }
    if new.len() > 1 {
        assert(new[0].id < new[1].id);
    }
    assert(record_for(old, nodes, this_id, new[0]));
}

/// Every broadcast target is the id of some record that is not local and is `Valid`.
proof fn lemma_targets_have_record(s: Seq<ClusterInnerNode>)
    ensures
        forall|j: int|
            0 <= j < peers_to_notify(s).len() ==> exists|i: int|
                0 <= i < s.len() && #[trigger] s[i].id == #[trigger] peers_to_notify(s)[j] && !s[i].is_local
                    && s[i].status == NodeStatus::Valid,
    decreases s.len(),
{
    if s.len() > 0 {
        let rest = s.drop_last();
        lemma_targets_have_record(rest);
        let t = peers_to_notify(s);
        assert forall|j: int| 0 <= j < t.len() implies exists|i: int|
            0 <= i < s.len() && #[trigger] s[i].id == #[trigger] t[j] && !s[i].is_local
                && s[i].status == NodeStatus::Valid by {
            if j < peers_to_notify(rest).len() {
                let i = choose|i: int|
                    0 <= i < rest.len() && #[trigger] rest[i].id == #[trigger] peers_to_notify(rest)[j]
                        && !rest[i].is_local && rest[i].status == NodeStatus::Valid;
                assert(s[i] == rest[i]);
            } else {
                assert(s[s.len() - 1].id == t[j]);
            }
        }
    }
}

/// A broadcast never reaches the local node, nor a node whose status is not
/// `Valid`: every record that carries a target's id is a `Valid` peer.
pub proof fn lemma_broadcast_exclusion(s: Seq<ClusterInnerNode>, this_id: u64)
    requires
        valid_node_set(s, this_id),
    ensures
        forall|j: int| 0 <= j < peers_to_notify(s).len() ==> #[trigger] peers_to_notify(s)[j] != this_id,
        forall|j: int, i: int|
            0 <= j < peers_to_notify(s).len() && 0 <= i < s.len() && #[trigger] s[i].id
                == #[trigger] peers_to_notify(s)[j] ==> !s[i].is_local && s[i].status == NodeStatus::Valid,
{
    lemma_targets_have_record(s);
    let t = peers_to_notify(s);
    assert forall|j: int, i: int|
        0 <= j < t.len() && 0 <= i < s.len() && #[trigger] s[i].id == #[trigger] t[j] implies !s[i].is_local
            && s[i].status == NodeStatus::Valid && t[j] != this_id by {
        let w = choose|w: int|
            0 <= w < s.len() && #[trigger] s[w].id == #[trigger] t[j] && !s[w].is_local
                && s[w].status == NodeStatus::Valid;
        if w < i {
            assert(s[w].id < s[i].id);
        } else if w > i {
            assert(s[i].id < s[w].id);
        }
    }
    assert forall|j: int| 0 <= j < t.len() implies #[trigger] t[j] != this_id by {
        let w = choose|w: int|
            0 <= w < s.len() && #[trigger] s[w].id == #[trigger] t[j] && !s[w].is_local
                && s[w].status == NodeStatus::Valid;
    }
}

} // verus!
