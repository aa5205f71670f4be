use vstd::prelude::*;

use crate::role::NodeState;

verus! {

/// A candidate's probe: `sender_id` is still competing at `phase`, and the
/// message currently travels towards the left neighbour iff `headed_left`.
#[derive(Clone, Copy, Debug, PartialEq, Eq, Structural)]
pub struct ProbeMessage {
    pub sender_id: u64,
    pub headed_left: bool,
    pub phase: u64,
}

/// The announcement that `leader_id` won, travelling left iff `headed_left`.
#[derive(Clone, Copy, Debug, PartialEq, Eq, Structural)]
pub struct NotifyMessage {
    pub leader_id: u64,
    pub headed_left: bool,
}

/// What a node did with a received probe.
#[derive(Clone, Copy, Debug, PartialEq, Eq, Structural)]
pub enum ProbeAction {
    /// The probe came from a smaller id: the node stays in the race and
    /// moves to its next phase.
    Advanced,
    /// The node's own probe came back: it is the leader.
    Elected,
    /// The probe came from a larger id: the node conceded.
    Conceded,
    /// The node has not yet sent its probe for its current phase; the probe
    /// must be offered again later.
    Wait,
    /// The node no longer competes: the probe goes on, unchanged, on the
    /// link in its direction of travel.
    Forward(ProbeMessage),
    /// The node's own probe reached it after it stopped competing.
    Dropped,
}

/// What the driver of a node does next.
#[derive(Clone, Copy, Debug, PartialEq, Eq, Structural)]
pub enum DriverAction {
    /// Send this probe on the link in its direction of travel.
    SendProbe(ProbeMessage),
    /// Already probed for the current phase: check again later.
    Idle,
    /// This node won: send `left` to the left neighbour and `right` to the
    /// right one, then stop.
    Announce { left: NotifyMessage, right: NotifyMessage },
    /// This node lost: stop.
    Stop,
}

/// Probes of even phases travel left, those of odd phases right.
pub open spec fn probes_left(phase: u64) -> bool {
    phase % 2 == 0
}

/// Node `id` in state `s` receives probe `m`: its next state and reaction.
///
/// A candidate that has probed for its phase compares ids: a probe from a
/// smaller id moves it on to the next phase, a probe from a larger id makes it
/// concede, and its own probe coming back makes it leader. This is the order
/// under which the largest id is the one that wins; the opposite order (the
/// receiver of a larger id's probe advancing, that of a smaller one's
/// conceding) can only ever elect the smallest id.
pub open spec fn probe_step(id: u64, s: NodeState, m: ProbeMessage) -> (NodeState, ProbeAction) {
    match s {
        NodeState::Candidate { phase, last_phase_probed } => {
            if phase != last_phase_probed {
                (s, ProbeAction::Wait)
            } else if m.sender_id < id {
                (
                    NodeState::Candidate { phase: (phase + 1) as u64, last_phase_probed },
                    ProbeAction::Advanced,
                )
            } else if id == m.sender_id {
                (NodeState::Leader, ProbeAction::Elected)
            } else {
                (NodeState::Defeated { leader: None }, ProbeAction::Conceded)
            }
        },
        _ => {
            if m.sender_id == id {
                (s, ProbeAction::Dropped)
            } else {
                (s, ProbeAction::Forward(m))
            }
        },
    }
}

/// The probes that node `id` in state `s` can take without overflowing its
/// phase counter.
pub open spec fn probe_admissible(id: u64, s: NodeState, m: ProbeMessage) -> bool {
    s.has_probed() && m.sender_id < id ==> s->phase < u64::MAX
}

/// Node `id` in state `s` receives announcement `m`: its next state and the
/// announcement it passes on, if any.
pub open spec fn notify_step(id: u64, s: NodeState, m: NotifyMessage) -> (
    NodeState,
    Option<NotifyMessage>,
) {
    if m.leader_id == id {
        (s, None)
    } else {
        (NodeState::Defeated { leader: Some(m.leader_id) }, Some(m))
    }
}

/// An announcement that node `id` in state `s` can take: a leader only ever
/// sees its own.
pub open spec fn notify_admissible(id: u64, s: NodeState, m: NotifyMessage) -> bool {
    s is Leader ==> m.leader_id == id
}

/// The driver of node `id` in state `s`: its next state and action.
pub open spec fn driver_step(id: u64, s: NodeState) -> (NodeState, DriverAction) {
    match s {
        NodeState::Candidate { phase, last_phase_probed } => {
            if last_phase_probed < phase {
                (
                    NodeState::Candidate { phase, last_phase_probed: phase },
                    DriverAction::SendProbe(
                        ProbeMessage { sender_id: id, headed_left: probes_left(phase), phase },
                    ),
                )
            } else {
                (s, DriverAction::Idle)
            }
        },
        NodeState::Defeated { .. } => (s, DriverAction::Stop),
        NodeState::Leader => (
            s,
            DriverAction::Announce {
                left: NotifyMessage { leader_id: id, headed_left: true },
                right: NotifyMessage { leader_id: id, headed_left: false },
            },
        ),
    }
}

} // verus!
