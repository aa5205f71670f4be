use leader_election::ring::{build_ring, listen_port, neighbours};
use leader_election::role::NodeState;

#[test]
fn neighbours_wrap_around() {
    assert_eq!(neighbours(3, 0), (2, 1));
    assert_eq!(neighbours(3, 1), (0, 2));
    assert_eq!(neighbours(3, 2), (1, 0));
    assert_eq!(neighbours(1, 0), (0, 0));
}

#[test]
fn ring_links_follow_input_order() {
    let ids = vec![1u64, 3, 2];
    let addrs = vec!["a1".to_string(), "a3".to_string(), "a2".to_string()];
    let nodes = build_ring(&ids, &addrs);
    assert_eq!(nodes.len(), 3);
    assert_eq!(nodes[0].id, 1);
    assert_eq!(nodes[0].left_addr, "a2");
    assert_eq!(nodes[0].right_addr, "a3");
    assert_eq!(nodes[1].id, 3);
    assert_eq!(nodes[1].left_addr, "a1");
    assert_eq!(nodes[1].right_addr, "a2");
    assert_eq!(nodes[2].id, 2);
    assert_eq!(nodes[2].left_addr, "a3");
    assert_eq!(nodes[2].right_addr, "a1");
    for n in &nodes {
        assert_eq!(n.state, NodeState::Candidate { phase: 1, last_phase_probed: 0 });
    }
}

#[test]
fn singleton_ring_links_to_itself() {
    let nodes = build_ring(&vec![7u64], &vec!["a7".to_string()]);
    assert_eq!(nodes.len(), 1);
    assert_eq!(nodes[0].left_addr, "a7");
    assert_eq!(nodes[0].right_addr, "a7");
}

#[test]
fn ports_derive_from_ids() {
    assert_eq!(listen_port(0), Some(50000));
    assert_eq!(listen_port(7), Some(50007));
    assert_eq!(listen_port(15535), Some(65535));
    assert_eq!(listen_port(15536), None);
}
