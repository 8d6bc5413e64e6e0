use partition_link::config::Config;
use partition_link::discover::{node_from_msg, Discover};
use partition_link::node::{Node, NodeManager, NodeMsg, NodeTable};

fn test_config() -> Config {
    Config::new()
}

fn peer(id: u64, is_self: bool, online: bool) -> Node {
    Node::new("10.0.0.7", id, 7111, is_self, online)
}

#[test]
fn ping_online_makes_node_exist_test() {
    let mut table = NodeTable::new(test_config());
    table.ping(peer(42, false, true), 1_000);
    assert!(table.exist(&42, 1_000));
    assert!(table.exist(&42, 30_999));
}

#[test]
fn ping_offline_removes_node_immediately_test() {
    let mut table = NodeTable::new(test_config());
    table.ping(peer(42, false, true), 1_000);
    assert!(table.exist(&42, 1_000));
    table.ping(peer(42, false, false), 1_001);
    assert!(!table.exist(&42, 1_001));
}

#[test]
fn prune_removes_expired_node_test() {
    let mut table = NodeTable::new(test_config());
    table.ping(peer(42, false, true), 1_000);
    // The default TTL is 30 s; past the deadline the entry is swept out.
    let removed = table.prune(100_000);
    assert_eq!(removed, 1);
    assert!(!table.exist(&42, 100_000));
}

#[test]
fn prune_keeps_live_node_test() {
    let mut table = NodeTable::new(test_config());
    table.ping(peer(42, false, true), 1_000);
    let removed = table.prune(2_000);
    assert_eq!(removed, 0);
    assert!(table.exist(&42, 2_000));
}

#[test]
fn other_nodes_excludes_self_test() {
    let mut table = NodeTable::new(test_config());
    table.ping(peer(1, true, true), 1_000);
    table.ping(peer(2, false, true), 1_000);
    table.ping(peer(3, false, true), 1_000);
    let others = table.get_other_nodes();
    assert_eq!(others.len(), 2);
    for node in &others {
        assert!(!node.is_self);
    }
}

#[test]
fn refresh_extends_expiry_test() {
    let mut table = NodeTable::new(test_config());
    table.ping(peer(42, false, true), 1_000);
    table.ping(peer(42, false, true), 20_000);
    assert!(table.exist(&42, 45_000));
    assert_eq!(table.prune(45_000), 0);
}

#[test]
fn get_other_node_returns_record_test() {
    let mut table = NodeTable::new(test_config());
    table.ping(peer(42, false, true), 1_000);
    let node = table.get_other_node(&42).expect("the node is known");
    assert_eq!(node.id, 42);
    assert_eq!(node.addr, "10.0.0.7");
    assert!(table.get_other_node(&43).is_none());
}

#[test]
fn discovery_two_processes_converge_test() {
    // Two processes on one host, distinct identities: each receives the
    // other's announcement and records it.
    let disc_a = Discover::new(test_config());
    let disc_b = Discover::new(test_config());
    let mut table_a = NodeTable::new(test_config());
    let mut table_b = NodeTable::new(test_config());

    let from_a = disc_a.announcement(true);
    let from_b = disc_b.announcement(true);

    let a_seen_by_b = node_from_msg(&from_a, "127.0.0.1", disc_b.node_id);
    let b_seen_by_a = node_from_msg(&from_b, "127.0.0.1", disc_a.node_id);
    table_b.ping(a_seen_by_b, 1_000);
    table_a.ping(b_seen_by_a, 1_000);

    assert!(table_b.exist(&disc_a.node_id, 1_000));
    assert!(table_a.exist(&disc_b.node_id, 1_000));
}

#[test]
fn discovery_goodbye_deletes_within_one_receive_test() {
    let disc_a = Discover::new(test_config());
    let disc_b = Discover::new(test_config());
    let mut table_b = NodeTable::new(test_config());

    let hello = node_from_msg(&disc_a.announcement(true), "127.0.0.1", disc_b.node_id);
    table_b.ping(hello, 1_000);
    assert!(table_b.exist(&disc_a.node_id, 1_000));

    let goodbye = node_from_msg(&disc_a.announcement(false), "127.0.0.1", disc_b.node_id);
    table_b.ping(goodbye, 2_000);
    assert!(!table_b.exist(&disc_a.node_id, 2_000));
}

#[test]
fn announcement_is_self_detection_test() {
    let disc = Discover::new(test_config());
    let msg = NodeMsg::new(disc.node_id, "", 7111, true);
    let node = node_from_msg(&msg, "127.0.0.1", disc.node_id);
    assert!(node.is_self);
    let other = node_from_msg(&NodeMsg::new(disc.node_id.wrapping_add(1), "", 7111, true), "127.0.0.1", disc.node_id);
    assert!(!other.is_self);
}

#[test]
fn connection_endpoint_test() {
    let node = Node::new("192.168.1.20", 9, 7111, false, true);
    assert_eq!(node.get_connection_endpoint(), "192.168.1.20:7111");
    let node = Node::new("h", 9, 0, false, true);
    assert_eq!(node.get_connection_endpoint(), "h:0");
}
