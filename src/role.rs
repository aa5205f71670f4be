use vstd::prelude::*;

verus! {

/// Local election state of one node.
#[derive(Clone, Copy, Debug, PartialEq, Eq, Structural)]
pub enum NodeState {
    /// Still competing. `phase` counts probing rounds; `last_phase_probed`
    /// is the last phase for which the node has sent its own probe.
    Candidate { phase: u64, last_phase_probed: u64 },
    /// Lost the election; `leader` is recorded once announced.
    Defeated { leader: Option<u64> },
    /// Won the election.
    Leader,
}

impl NodeState {
    /// A candidate has either probed for its current phase already, or is one
    /// phase ahead of its last probe.
    pub open spec fn wf(self) -> bool {
        match self {
            NodeState::Candidate { phase, last_phase_probed } => {
                &&& 1 <= phase
                &&& last_phase_probed <= phase
                &&& phase - last_phase_probed <= 1
            },
            _ => true,
        }
    }

    /// A candidate that has sent its probe for the current phase.
    pub open spec fn has_probed(self) -> bool {
        self matches NodeState::Candidate { phase, last_phase_probed } && last_phase_probed == phase
    }

    /// The roles reachable from `self` in one transition: phases of a
    /// candidate never go down and rise by at most one, and `Defeated` and
    /// `Leader` are never left.
    pub open spec fn may_become(self, next: NodeState) -> bool {
        match self {
            NodeState::Candidate { phase, .. } => match next {
                NodeState::Candidate { phase: p2, .. } => phase <= p2 <= phase + 1,
                _ => true,
            },
            NodeState::Defeated { .. } => next is Defeated,
            NodeState::Leader => next is Leader,
        }
    }

    pub open spec fn initial_spec() -> NodeState {
        NodeState::Candidate { phase: 1, last_phase_probed: 0 }
    }

    /// The state a node starts an election in.
    pub fn initial() -> (r: NodeState)
        ensures
            r == NodeState::initial_spec(),
            r.wf(),
    {
        NodeState::Candidate { phase: 1, last_phase_probed: 0 }
    }

    pub fn is_candidate(&self) -> (r: bool)
        ensures
            r == (*self is Candidate),
    {
        matches!(*self, NodeState::Candidate { .. })
    }

    pub fn is_defeated(&self) -> (r: bool)
        ensures
            r == (*self is Defeated),
    {
        matches!(*self, NodeState::Defeated { .. })
    }

    pub fn is_leader(&self) -> (r: bool)
        ensures
            r == (*self is Leader),
    {
        matches!(*self, NodeState::Leader)
    }

    /// The node's part in the election is over: it leads, or it has lost and
    /// learnt who leads.
    pub fn is_settled(&self) -> (r: bool)
        ensures
            r == (*self is Leader || *self matches NodeState::Defeated { leader: Some(_) }),
    {
        match *self {
            NodeState::Leader => true,
            NodeState::Defeated { leader: Some(_) } => true,
            _ => false,
        }
    }

    /// Starts the next phase of a candidate that has probed for its current one.
    pub fn next_phase(&mut self)
        requires
            old(self).has_probed(),
            (*old(self))->phase < u64::MAX,
        ensures
            *final(self) == (NodeState::Candidate {
                phase: ((*old(self))->phase + 1) as u64,
                last_phase_probed: (*old(self))->last_phase_probed,
            }),
    {
        match *self {
            NodeState::Candidate { phase, last_phase_probed } => {
                *self = NodeState::Candidate { phase: phase + 1, last_phase_probed };
            },
            _ => {},
        }
    }

    /// Concedes: a candidate becomes defeated with no known leader; a defeated
    /// node is left as it is.
    pub fn defeat(&mut self)
        requires
            !(*old(self) is Leader),
        ensures
            *old(self) is Candidate ==> *final(self) == (NodeState::Defeated { leader: None }),
            *old(self) is Defeated ==> *final(self) == *old(self),
    {
        match *self {
            NodeState::Candidate { .. } => {
                *self = NodeState::Defeated { leader: None };
            },
            _ => {},
        }
    }

    /// Records `leader` as the elected node, conceding if still a candidate.
    pub fn defeat_with_leader(&mut self, leader: u64)
        requires
            !(*old(self) is Leader),
        ensures
            *final(self) == (NodeState::Defeated { leader: Some(leader) }),
    {
        *self = NodeState::Defeated { leader: Some(leader) };
    }

    /// Declares this node the winner.
    pub fn lead(&mut self)
        requires
            !(*old(self) is Defeated),
        ensures
            *final(self) == NodeState::Leader,
    {
        *self = NodeState::Leader;
    }

    /// Records that the probe for the current phase has been sent.
    pub fn mark_probed(&mut self)
        requires
            *old(self) is Candidate,
        ensures
            *final(self) == (NodeState::Candidate {
                phase: (*old(self))->phase,
                last_phase_probed: (*old(self))->phase,
            }),
    {
        match *self {
            NodeState::Candidate { phase, .. } => {
                *self = NodeState::Candidate { phase, last_phase_probed: phase };
            },
            _ => {},
        }
    }
}

} // verus!
