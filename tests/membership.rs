use naming_cluster::node::{ClusterInnerNode, ClusterNode, NodeStatus};
use naming_cluster::routing::{NamingRouteAddr, NodeManage};
use naming_cluster::store::{InnerNodeManage, NodeManageRequest, NodeManageResponse, UpdateError};

fn snapshot(entries: &[(u64, &str)]) -> Vec<(u64, String)> {
    entries.iter().map(|(id, addr)| (*id, addr.to_string())).collect()
}

fn summary(nodes: &[ClusterNode]) -> Vec<(u64, u64, bool, String, NodeStatus)> {
    nodes
        .iter()
        .map(|n| (n.id, n.index, n.is_local, n.addr.clone(), n.status))
        .collect()
}

#[test]
fn three_members_listed_in_id_order() {
    let mut store = InnerNodeManage::new(2);
    store.update_nodes(snapshot(&[(3, "c"), (1, "a"), (2, "b")])).unwrap();
    let all = store.get_all_nodes();
    assert_eq!(
        summary(&all),
        vec![
            (1, 0, false, "a".to_string(), NodeStatus::Valid),
            (2, 1, true, "b".to_string(), NodeStatus::Valid),
            (3, 2, false, "c".to_string(), NodeStatus::Valid),
        ]
    );
}

#[test]
fn hash_seven_over_three_routes_local_slot_one() {
    let mut store = InnerNodeManage::new(2);
    store.update_nodes(snapshot(&[(1, "a"), (2, "b"), (3, "c")])).unwrap();
    let route = NodeManage::new(store.get_all_nodes()).route_addr(7);
    assert!(matches!(route, NamingRouteAddr::Local(1)));
}

#[test]
fn hash_routes_remote_with_address() {
    let mut store = InnerNodeManage::new(2);
    store.update_nodes(snapshot(&[(1, "a"), (2, "b"), (3, "c")])).unwrap();
    let facade = NodeManage::new(store.get_all_nodes());
    match facade.route_addr(3) {
        NamingRouteAddr::Remote(i, addr) => {
            assert_eq!(i, 0);
            assert_eq!(addr, "a");
        }
        other => panic!("unexpected route {:?}", other),
    }
    match facade.route_addr(u64::MAX) {
        NamingRouteAddr::Remote(i, addr) => {
            assert_eq!(i, u64::MAX % 3);
            assert_eq!(addr, "a");
        }
        other => panic!("unexpected route {:?}", other),
    }
}

#[test]
fn routing_is_deterministic_for_one_snapshot() {
    let mut store = InnerNodeManage::new(2);
    store.update_nodes(snapshot(&[(1, "a"), (2, "b"), (3, "c"), (4, "d")])).unwrap();
    let facade = NodeManage::new(store.get_all_nodes());
    for hash in [0u64, 5, 11, 1234567] {
        let first = format!("{:?}", facade.route_addr(hash));
        let second = format!("{:?}", facade.route_addr(hash));
        assert_eq!(first, second);
    }
    assert!(matches!(facade.route_addr(5), NamingRouteAddr::Local(1)));
    assert!(matches!(facade.route_addr(11), NamingRouteAddr::Remote(3, _)));
}

#[test]
fn empty_snapshot_routes_local_zero() {
    let facade = NodeManage::new(Vec::new());
    assert!(matches!(facade.route_addr(42), NamingRouteAddr::Local(0)));
}

#[test]
fn self_only_snapshot_on_empty_store() {
    let mut store = InnerNodeManage::new(2);
    let changes = store.update_nodes(snapshot(&[(2, "b")])).unwrap();
    assert!(changes.started.is_empty());
    assert!(changes.stopped.is_empty());
    let all = store.get_all_nodes();
    assert_eq!(summary(&all), vec![(2, 0, true, "b".to_string(), NodeStatus::Valid)]);
}

#[test]
fn removing_node_three_stops_its_channel() {
    let mut store = InnerNodeManage::new(2);
    let first = store.update_nodes(snapshot(&[(1, "a"), (2, "b"), (3, "c")])).unwrap();
    let mut started: Vec<u64> = first.started.iter().map(|(id, _)| *id).collect();
    started.sort();
    assert_eq!(started, vec![1, 3]);
    assert_eq!(store.send_to_other_nodes(), vec![1, 3]);

    let second = store.update_nodes(snapshot(&[(1, "a"), (2, "b")])).unwrap();
    assert_eq!(second.stopped, vec![3]);
    assert!(second.started.is_empty());
    assert_eq!(store.send_to_other_nodes(), vec![1]);
    let all = store.get_all_nodes();
    assert_eq!(
        all.iter().map(|n| (n.id, n.index)).collect::<Vec<_>>(),
        vec![(1, 0), (2, 1)]
    );
}

#[test]
fn empty_snapshot_keeps_only_self() {
    let mut store = InnerNodeManage::new(9);
    store.update_nodes(snapshot(&[(1, "a"), (9, "z")])).unwrap();
    let changes = store.update_nodes(Vec::new()).unwrap();
    assert_eq!(changes.stopped, vec![1]);
    let all = store.get_all_nodes();
    assert_eq!(summary(&all), vec![(9, 0, true, String::new(), NodeStatus::Valid)]);
}

#[test]
fn empty_snapshot_on_empty_store() {
    let mut store = InnerNodeManage::new(4);
    store.update_nodes(Vec::new()).unwrap();
    let all = store.get_all_nodes();
    assert_eq!(summary(&all), vec![(4, 0, true, String::new(), NodeStatus::Valid)]);
}

#[test]
fn same_snapshot_twice_is_identical() {
    let mut store = InnerNodeManage::new(2);
    let nodes = snapshot(&[(7, "g"), (3, "c"), (5, "e")]);
    store.update_nodes(nodes.clone()).unwrap();
    let first = summary(&store.get_all_nodes());
    let again = store.update_nodes(nodes).unwrap();
    assert!(again.started.is_empty());
    assert!(again.stopped.is_empty());
    let second = summary(&store.get_all_nodes());
    assert_eq!(first, second);
    assert_eq!(first.len(), 4);
}

#[test]
fn indices_are_dense_in_id_order() {
    let mut store = InnerNodeManage::new(100);
    store.update_nodes(snapshot(&[(50, "x"), (10, "y"), (30, "z"), (20, "w")])).unwrap();
    let all = store.get_all_nodes();
    assert_eq!(
        all.iter().map(|n| (n.id, n.index, n.is_local)).collect::<Vec<_>>(),
        vec![
            (10, 0, false),
            (20, 1, false),
            (30, 2, false),
            (50, 3, false),
            (100, 4, true),
        ]
    );
}

#[test]
fn broadcast_skips_local_and_unhealthy() {
    let mut store = InnerNodeManage::new(2);
    store.update_nodes(snapshot(&[(1, "a"), (2, "b"), (3, "c"), (4, "d")])).unwrap();
    assert!(store.set_status(3, NodeStatus::Ill));
    assert!(store.set_status(4, NodeStatus::Unvalid));
    assert!(!store.set_status(8, NodeStatus::Ill));
    assert_eq!(store.send_to_other_nodes(), vec![1]);
    assert!(store.set_status(3, NodeStatus::Valid));
    assert_eq!(store.send_to_other_nodes(), vec![1, 3]);
}

#[test]
fn update_keeps_status_and_changes_address() {
    let mut store = InnerNodeManage::new(2);
    store.update_nodes(snapshot(&[(1, "a"), (2, "b")])).unwrap();
    store.set_status(1, NodeStatus::Ill);
    let changes = store.update_nodes(snapshot(&[(1, "a2"), (2, "b")])).unwrap();
    assert!(changes.started.is_empty());
    assert!(changes.stopped.is_empty());
    let all = store.get_all_nodes();
    assert_eq!(
        summary(&all),
        vec![
            (1, 0, false, "a2".to_string(), NodeStatus::Ill),
            (2, 1, true, "b".to_string(), NodeStatus::Valid),
        ]
    );
}

#[test]
fn duplicate_id_is_rejected() {
    let mut store = InnerNodeManage::new(2);
    store.update_nodes(snapshot(&[(1, "a")])).unwrap();
    let before = summary(&store.get_all_nodes());
    let err = store.update_nodes(snapshot(&[(3, "c"), (1, "a"), (3, "d")])).unwrap_err();
    assert_eq!(err, UpdateError::DuplicateId(3));
    assert_eq!(summary(&store.get_all_nodes()), before);
}

#[test]
fn empty_address_for_new_node_is_rejected() {
    let mut store = InnerNodeManage::new(2);
    store.update_nodes(snapshot(&[(1, "a")])).unwrap();
    let err = store.update_nodes(snapshot(&[(1, "a"), (5, "")])).unwrap_err();
    assert_eq!(err, UpdateError::EmptyAddress(5));
    assert_eq!(store.send_to_other_nodes(), vec![1]);
}

#[test]
fn empty_address_for_known_node_is_accepted() {
    let mut store = InnerNodeManage::new(2);
    store.update_nodes(snapshot(&[(1, "a")])).unwrap();
    store.update_nodes(snapshot(&[(1, "")])).unwrap();
    let all = store.get_all_nodes();
    assert_eq!(all[0].id, 1);
    assert_eq!(all[0].addr, "");
}

#[test]
fn this_node_is_synthesized_while_empty() {
    let store = InnerNodeManage::new(6);
    let this_node: ClusterInnerNode = store.get_this_node();
    assert_eq!(this_node.id, 6);
    assert_eq!(this_node.index, 0);
    assert!(this_node.is_local);
    assert!(!this_node.has_sync_sender);
    assert_eq!(this_node.addr, "");
    assert_eq!(this_node.status, NodeStatus::Valid);
    let all = store.get_all_nodes();
    assert_eq!(summary(&all), vec![(6, 0, true, String::new(), NodeStatus::Valid)]);
    assert_eq!(store.this_id(), 6);
}

#[test]
fn this_node_is_the_stored_record() {
    let mut store = InnerNodeManage::new(6);
    store.update_nodes(snapshot(&[(3, "c"), (6, "f")])).unwrap();
    let this_node = store.get_this_node();
    assert_eq!(this_node.index, 1);
    assert_eq!(this_node.addr, "f");
    let public = ClusterNode::from(this_node);
    assert_eq!(public.id, 6);
    assert!(public.is_local);
}

#[test]
fn peers_get_channels_local_does_not() {
    let mut store = InnerNodeManage::new(2);
    let changes = store.update_nodes(snapshot(&[(2, "b"), (7, "g")])).unwrap();
    assert_eq!(changes.started, vec![(7, "g".to_string())]);
    let peer = store.get_all_nodes();
    assert_eq!(peer.len(), 2);
}

#[test]
fn other_valid_nodes_exclude_local() {
    let mut store = InnerNodeManage::new(2);
    store.update_nodes(snapshot(&[(1, "a"), (2, "b"), (3, "c")])).unwrap();
    let facade = NodeManage::new(store.get_all_nodes());
    let others = facade.get_other_valid_nodes();
    assert_eq!(others.iter().map(|n| n.id).collect::<Vec<_>>(), vec![1, 3]);
    let all = facade.get_all_valid_nodes();
    assert_eq!(all.iter().map(|n| n.id).collect::<Vec<_>>(), vec![1, 2, 3]);
}

#[test]
fn handle_dispatches_each_command() {
    let mut store = InnerNodeManage::new(2);
    match store.handle(NodeManageRequest::UpdateNodes(snapshot(&[(1, "a"), (2, "b")]))) {
        NodeManageResponse::Update(Ok(ch)) => assert_eq!(ch.started, vec![(1, "a".to_string())]),
        other => panic!("unexpected response {:?}", other),
    }
    match store.handle(NodeManageRequest::UpdateNodes(snapshot(&[(1, "a"), (1, "b")]))) {
        NodeManageResponse::Update(Err(e)) => assert_eq!(e, UpdateError::DuplicateId(1)),
        other => panic!("unexpected response {:?}", other),
    }
    match store.handle(NodeManageRequest::GetThisNode) {
        NodeManageResponse::ThisNode(n) => assert_eq!((n.id, n.index, n.is_local), (2, 1, true)),
        other => panic!("unexpected response {:?}", other),
    }
    match store.handle(NodeManageRequest::GetAllNodes) {
        NodeManageResponse::AllNodes(v) => assert_eq!(v.len(), 2),
        other => panic!("unexpected response {:?}", other),
    }
    match store.handle(NodeManageRequest::SendToOtherNodes) {
        NodeManageResponse::Deliver(ids) => assert_eq!(ids, vec![1]),
        other => panic!("unexpected response {:?}", other),
    }
}

#[test]
fn status_defaults_to_valid() {
    assert_eq!(NodeStatus::default(), NodeStatus::Valid);
}
