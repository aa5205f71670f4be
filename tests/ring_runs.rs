use std::collections::VecDeque;

use leader_election::node::Node;
use leader_election::protocol::{DriverAction, NotifyMessage, ProbeAction, ProbeMessage};
use leader_election::ring::{build_ring, neighbours};
use leader_election::role::NodeState;

enum Msg {
    Probe(ProbeMessage),
    Notify(NotifyMessage),
}

fn next_hop(n: usize, at: usize, headed_left: bool) -> usize {
    let (l, r) = neighbours(n, at);
    if headed_left { l } else { r }
}

/// Runs one election to quiescence with a fair round-robin schedule and
/// first-in first-out links; returns the final states and the number of
/// probes sent by drivers of nodes that were not candidates.
fn run(ids: &[u64]) -> (Vec<NodeState>, usize) {
    let n = ids.len();
    let addrs: Vec<String> = ids.iter().map(|i| format!("node{}", i)).collect();
    let mut nodes: Vec<Node> = build_ring(&ids.to_vec(), &addrs);
    let mut running = vec![true; n];
    let mut queue: VecDeque<(usize, Msg)> = VecDeque::new();
    let mut rogue_probes = 0;
    let mut rounds = 0;
    loop {
        rounds += 1;
        assert!(rounds < 10_000, "election did not settle");
        let mut progressed = false;
        for i in 0..n {
            if !running[i] {
                continue;
            }
            let was_candidate = nodes[i].state.is_candidate();
            match nodes[i].drive() {
                DriverAction::SendProbe(m) => {
                    if !was_candidate {
                        rogue_probes += 1;
                    }
                    queue.push_back((next_hop(n, i, m.headed_left), Msg::Probe(m)));
                    progressed = true;
                }
                DriverAction::Idle => {}
                DriverAction::Announce { left, right } => {
                    queue.push_back((next_hop(n, i, true), Msg::Notify(left)));
                    queue.push_back((next_hop(n, i, false), Msg::Notify(right)));
                    running[i] = false;
                    progressed = true;
                }
                DriverAction::Stop => {
                    running[i] = false;
                    progressed = true;
                }
            }
        }
        for _ in 0..queue.len() {
            let (at, msg) = queue.pop_front().unwrap();
            match msg {
                Msg::Probe(m) => match nodes[at].handle_probe(m) {
                    ProbeAction::Wait => queue.push_back((at, Msg::Probe(m))),
                    ProbeAction::Forward(f) => {
                        queue.push_back((next_hop(n, at, f.headed_left), Msg::Probe(f)));
                        progressed = true;
                    }
                    _ => progressed = true,
                },
                Msg::Notify(m) => {
                    if let Some(f) = nodes[at].handle_notify(m) {
                        queue.push_back((next_hop(n, at, f.headed_left), Msg::Notify(f)));
                    }
                    progressed = true;
                }
            }
        }
        if !progressed && queue.is_empty() && running.iter().all(|r| !r) {
            break;
        }
    }
    (nodes.into_iter().map(|n| n.state).collect(), rogue_probes)
}

fn leaders(states: &[NodeState]) -> Vec<usize> {
    (0..states.len()).filter(|&i| states[i].is_leader()).collect()
}

fn assert_settled(ids: &[u64], states: &[NodeState]) -> u64 {
    let l = leaders(states);
    assert_eq!(l.len(), 1, "ids {:?} ended in {:?}", ids, states);
    let leader = ids[l[0]];
    for (i, s) in states.iter().enumerate() {
        if i != l[0] {
            assert_eq!(*s, NodeState::Defeated { leader: Some(leader) });
        }
    }
    leader
}

fn permutations(items: &[u64]) -> Vec<Vec<u64>> {
    if items.len() <= 1 {
        return vec![items.to_vec()];
    }
    let mut out = Vec::new();
    for i in 0..items.len() {
        let mut rest = items.to_vec();
        let first = rest.remove(i);
        for mut p in permutations(&rest) {
            p.insert(0, first);
            out.push(p);
        }
    }
    out
}

#[test]
fn single_node_ring_elects_itself() {
    let (states, rogue) = run(&[7]);
    assert_eq!(states, vec![NodeState::Leader]);
    assert_eq!(rogue, 0);
}

#[test]
fn ascending_ring_elects_largest_id() {
    let ids = [1, 2, 3];
    let (states, rogue) = run(&ids);
    assert_eq!(assert_settled(&ids, &states), 3);
    let d3 = NodeState::Defeated { leader: Some(3) };
    assert_eq!(states, vec![d3, d3, NodeState::Leader]);
    assert_eq!(rogue, 0);
}

#[test]
fn ring_with_maximum_in_the_middle_elects_largest_id() {
    let ids = [1, 3, 2];
    let (states, _) = run(&ids);
    assert_eq!(assert_settled(&ids, &states), 3);
    let d3 = NodeState::Defeated { leader: Some(3) };
    assert_eq!(states, vec![d3, NodeState::Leader, d3]);
}

#[test]
fn five_node_ring_elects_largest_id() {
    let ids = [5, 1, 4, 2, 3];
    let (states, rogue) = run(&ids);
    assert_eq!(assert_settled(&ids, &states), 5);
    let d5 = NodeState::Defeated { leader: Some(5) };
    assert_eq!(states, vec![NodeState::Leader, d5, d5, d5, d5]);
    assert_eq!(rogue, 0);
}

#[test]
fn crossing_probes_still_elect_largest_id() {
    let ids = [2, 9];
    let (states, rogue) = run(&ids);
    assert_eq!(states, vec![NodeState::Defeated { leader: Some(9) }, NodeState::Leader]);
    assert_eq!(rogue, 0);
}

#[test]
fn every_small_ring_order_elects_its_largest_id_known_to_all() {
    for n in 1..=5u64 {
        let ids: Vec<u64> = (1..=n).map(|i| i * 10 + n).collect();
        for order in permutations(&ids) {
            let (states, rogue) = run(&order);
            let leader = assert_settled(&order, &states);
            assert_eq!(leader, *order.iter().max().unwrap());
            assert_eq!(rogue, 0);
        }
    }
}
