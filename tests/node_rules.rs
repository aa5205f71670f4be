use leader_election::node::Node;
use leader_election::protocol::{DriverAction, NotifyMessage, ProbeAction, ProbeMessage};
use leader_election::role::NodeState;

fn node(id: u64, state: NodeState) -> Node {
    let mut n = Node::new(id, "left".to_string(), "right".to_string());
    n.state = state;
    n
}

fn probe(sender_id: u64, headed_left: bool, phase: u64) -> ProbeMessage {
    ProbeMessage { sender_id, headed_left, phase }
}

#[test]
fn new_node_starts_as_candidate_of_phase_one() {
    let n = Node::new(4, "a".to_string(), "b".to_string());
    assert_eq!(n.state, NodeState::Candidate { phase: 1, last_phase_probed: 0 });
    assert_eq!(n.link(true), "a");
    assert_eq!(n.link(false), "b");
}

#[test]
fn single_node_elects_itself_in_phase_one() {
    let mut n = Node::new(7, "self".to_string(), "self".to_string());
    let sent = n.drive();
    assert_eq!(sent, DriverAction::SendProbe(probe(7, false, 1)));
    assert_eq!(n.state, NodeState::Candidate { phase: 1, last_phase_probed: 1 });
    assert_eq!(n.handle_probe(probe(7, false, 1)), ProbeAction::Elected);
    assert_eq!(n.state, NodeState::Leader);
    let left = NotifyMessage { leader_id: 7, headed_left: true };
    let right = NotifyMessage { leader_id: 7, headed_left: false };
    assert_eq!(n.drive(), DriverAction::Announce { left, right });
    assert_eq!(n.handle_notify(left), None);
    assert_eq!(n.handle_notify(right), None);
    assert_eq!(n.state, NodeState::Leader);
}

#[test]
fn crossing_probes_advance_larger_and_defeat_smaller() {
    let mut big = node(9, NodeState::initial());
    let mut small = node(2, NodeState::initial());
    let from_big = big.drive();
    let from_small = small.drive();
    assert_eq!(from_big, DriverAction::SendProbe(probe(9, false, 1)));
    assert_eq!(from_small, DriverAction::SendProbe(probe(2, false, 1)));
    assert_eq!(big.handle_probe(probe(2, false, 1)), ProbeAction::Advanced);
    assert_eq!(big.state, NodeState::Candidate { phase: 2, last_phase_probed: 1 });
    assert_eq!(small.handle_probe(probe(9, false, 1)), ProbeAction::Conceded);
    assert_eq!(small.state, NodeState::Defeated { leader: None });
}

#[test]
fn defeated_node_forwards_probe_unchanged() {
    let seeded = NodeState::Defeated { leader: None };
    let mut n = node(3, seeded);
    let m = probe(8, true, 4);
    assert_eq!(n.handle_probe(m), ProbeAction::Forward(m));
    assert_eq!(n.state, seeded);
    let m2 = probe(1, false, 5);
    assert_eq!(n.handle_probe(m2), ProbeAction::Forward(m2));
    assert_eq!(n.state, seeded);
}

#[test]
fn defeated_node_drops_its_own_probe() {
    let seeded = NodeState::Defeated { leader: Some(6) };
    let mut n = node(3, seeded);
    assert_eq!(n.handle_probe(probe(3, true, 2)), ProbeAction::Dropped);
    assert_eq!(n.state, seeded);
}

#[test]
fn leader_relays_stragglers() {
    let mut n = node(5, NodeState::Leader);
    let m = probe(4, false, 3);
    assert_eq!(n.handle_probe(m), ProbeAction::Forward(m));
    assert_eq!(n.handle_probe(probe(5, false, 3)), ProbeAction::Dropped);
    assert_eq!(n.state, NodeState::Leader);
}

#[test]
fn probe_waits_until_current_phase_is_probed() {
    let fresh = NodeState::Candidate { phase: 2, last_phase_probed: 1 };
    let mut n = node(3, fresh);
    assert_eq!(n.handle_probe(probe(1, true, 2)), ProbeAction::Wait);
    assert_eq!(n.state, fresh);
    assert_eq!(n.drive(), DriverAction::SendProbe(probe(3, true, 2)));
    assert_eq!(n.handle_probe(probe(1, true, 2)), ProbeAction::Advanced);
    assert_eq!(n.state, NodeState::Candidate { phase: 3, last_phase_probed: 2 });
}

#[test]
fn driver_alternates_direction_by_phase() {
    let mut n = node(3, NodeState::Candidate { phase: 3, last_phase_probed: 2 });
    assert_eq!(n.drive(), DriverAction::SendProbe(probe(3, false, 3)));
    let mut m = node(3, NodeState::Candidate { phase: 4, last_phase_probed: 3 });
    assert_eq!(m.drive(), DriverAction::SendProbe(probe(3, true, 4)));
}

#[test]
fn driver_idles_after_probing_and_stops_when_defeated() {
    let probed = NodeState::Candidate { phase: 2, last_phase_probed: 2 };
    let mut n = node(3, probed);
    assert_eq!(n.drive(), DriverAction::Idle);
    assert_eq!(n.state, probed);
    let mut d = node(3, NodeState::Defeated { leader: None });
    assert_eq!(d.drive(), DriverAction::Stop);
    assert_eq!(d.state, NodeState::Defeated { leader: None });
}

#[test]
fn notification_records_leader_and_is_forwarded() {
    let mut n = node(2, NodeState::Candidate { phase: 3, last_phase_probed: 3 });
    let m = NotifyMessage { leader_id: 9, headed_left: true };
    assert_eq!(n.handle_notify(m), Some(m));
    assert_eq!(n.state, NodeState::Defeated { leader: Some(9) });
    let m2 = NotifyMessage { leader_id: 11, headed_left: false };
    assert_eq!(n.handle_notify(m2), Some(m2));
    assert_eq!(n.state, NodeState::Defeated { leader: Some(11) });
}

#[test]
fn own_notification_ends_the_sweep() {
    let mut n = node(2, NodeState::Leader);
    assert_eq!(n.handle_notify(NotifyMessage { leader_id: 2, headed_left: true }), None);
    assert_eq!(n.state, NodeState::Leader);
}

#[test]
fn state_operations() {
    let mut s = NodeState::Candidate { phase: 4, last_phase_probed: 4 };
    s.next_phase();
    assert_eq!(s, NodeState::Candidate { phase: 5, last_phase_probed: 4 });
    s.mark_probed();
    assert_eq!(s, NodeState::Candidate { phase: 5, last_phase_probed: 5 });
    assert!(s.is_candidate());
    s.defeat();
    assert_eq!(s, NodeState::Defeated { leader: None });
    assert!(s.is_defeated());
    s.defeat_with_leader(8);
    s.defeat();
    assert_eq!(s, NodeState::Defeated { leader: Some(8) });
    let mut l = NodeState::initial();
    l.lead();
    l.lead();
    assert!(l.is_leader());
    assert_eq!(l, NodeState::Leader);
}
