use vstd::prelude::*;

use crate::protocol::{
    driver_step, notify_admissible, notify_step, probe_admissible, probe_step, DriverAction,
    NotifyMessage, ProbeAction, ProbeMessage,
};
use crate::role::NodeState;

verus! {

/// One member of the ring: its id, the addresses of its two neighbours, and
/// its election state.
#[derive(Debug)]
pub struct Node {
    pub id: u64,
    pub left_addr: String,
    pub right_addr: String,
    pub state: NodeState,
}

impl Node {
    pub open spec fn wf(&self) -> bool {
        self.state.wf()
    }

    /// The same node with another state.
    pub open spec fn with_state_spec(self, s: NodeState) -> Node {
        Node { state: s, ..self }
    }

    /// A node at the start of an election.
    pub fn new(id: u64, left_addr: String, right_addr: String) -> (r: Node)
        ensures
            r.id == id,
            r.left_addr == left_addr,
            r.right_addr == right_addr,
            r.state == NodeState::initial_spec(),
            r.wf(),
    {
        Node { id, left_addr, right_addr, state: NodeState::initial() }
    }

    /// The address of the neighbour in the given direction.
    pub fn link(&self, headed_left: bool) -> (r: &String)
        ensures
            *r == (if headed_left { self.left_addr } else { self.right_addr }),
    {
        if headed_left {
            &self.left_addr
        } else {
            &self.right_addr
        }
    }

    /// Acts on a received probe: compares ids while probing, waits while a
    /// new phase has not been probed yet, and forwards once out of the race.
    pub fn handle_probe(&mut self, m: ProbeMessage) -> (r: ProbeAction)
        requires
            probe_admissible(old(self).id, old(self).state, m),
        ensures
            *final(self) == old(self).with_state_spec(probe_step(old(self).id, old(self).state, m).0),
            r == probe_step(old(self).id, old(self).state, m).1,
            old(self).wf() ==> final(self).wf(),
    {
        match self.state {
            NodeState::Candidate { phase, last_phase_probed } => {
                if phase != last_phase_probed {
                    ProbeAction::Wait
                } else if m.sender_id < self.id {
                    self.state.next_phase();
                    ProbeAction::Advanced
                } else if self.id == m.sender_id {
                    self.state.lead();
                    ProbeAction::Elected
                } else {
                    self.state.defeat();
                    ProbeAction::Conceded
                }
            },
            _ => {
                if m.sender_id == self.id {
                    ProbeAction::Dropped
                } else {
                    ProbeAction::Forward(m)
                }
            },
        }
    }

    /// Acts on a received leadership announcement: records the leader and
    /// passes the announcement on, unless it is this node's own coming back.
    pub fn handle_notify(&mut self, m: NotifyMessage) -> (r: Option<NotifyMessage>)
        requires
            notify_admissible(old(self).id, old(self).state, m),
        ensures
            *final(self) == old(self).with_state_spec(notify_step(old(self).id, old(self).state, m).0),
            r == notify_step(old(self).id, old(self).state, m).1,
            old(self).wf() ==> final(self).wf(),
    {
        if m.leader_id == self.id {
            None
        } else {
            self.state.defeat_with_leader(m.leader_id);
            Some(m)
        }
    }

    /// One round of the driver: sends the probe of a new phase, announces a
    /// won election, or stops once defeated.
    pub fn drive(&mut self) -> (r: DriverAction)
        ensures
            *final(self) == old(self).with_state_spec(driver_step(old(self).id, old(self).state).0),
            r == driver_step(old(self).id, old(self).state).1,
            old(self).wf() ==> final(self).wf(),
    {
        match self.state {
            NodeState::Candidate { phase, last_phase_probed } => {
                if last_phase_probed < phase {
                    self.state.mark_probed();
                    DriverAction::SendProbe(
                        ProbeMessage { sender_id: self.id, headed_left: phase % 2 == 0, phase },
                    )
                } else {
                    DriverAction::Idle
                }
            },
            NodeState::Defeated { .. } => DriverAction::Stop,
            NodeState::Leader => DriverAction::Announce {
                left: NotifyMessage { leader_id: self.id, headed_left: true },
                right: NotifyMessage { leader_id: self.id, headed_left: false },
            },
        }
    }
}

} // verus!
