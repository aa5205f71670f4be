use vstd::prelude::*;

use crate::protocol::{
    driver_step, notify_admissible, notify_step, probe_admissible, probe_step, NotifyMessage,
    ProbeAction, ProbeMessage,
};
use crate::role::NodeState;

verus! {

/// Every reaction of a node — to a probe, to an announcement, or of its
/// driver — keeps `Defeated` and `Leader` nodes where they are, and moves a
/// candidate's phase up by at most one, never down.
pub proof fn transitions_are_monotone(id: u64, s: NodeState, m: ProbeMessage, n: NotifyMessage)
    requires
        s.wf(),
        probe_admissible(id, s, m),
        notify_admissible(id, s, n),
    ensures
        s.may_become(probe_step(id, s, m).0),
        s.may_become(notify_step(id, s, n).0),
        s.may_become(driver_step(id, s).0),
        probe_step(id, s, m).0.wf(),
        notify_step(id, s, n).0.wf(),
        driver_step(id, s).0.wf(),
{
}

/// A phase changes only when a probe from a smaller id ends it, and then by
/// exactly one; no other reaction touches it.
pub proof fn phase_steps_by_one(id: u64, s: NodeState, m: ProbeMessage)
    requires
        s is Candidate,
        probe_admissible(id, s, m),
    ensures
        probe_step(id, s, m).1 == ProbeAction::Advanced ==> probe_step(id, s, m).0->phase == s->phase + 1,
        probe_step(id, s, m).1 != ProbeAction::Advanced && probe_step(id, s, m).0 is Candidate
            ==> probe_step(id, s, m).0->phase == s->phase,
        driver_step(id, s).0->phase == s->phase,
{
}

/// `Defeated` and `Leader` are terminal: nothing a node receives or does
/// takes it out of either.
pub proof fn roles_are_terminal(id: u64, s: NodeState, m: ProbeMessage, n: NotifyMessage)
    requires
        !(s is Candidate),
        notify_admissible(id, s, n),
    ensures
        s is Leader ==> probe_step(id, s, m).0 is Leader && notify_step(id, s, n).0 is Leader
            && driver_step(id, s).0 is Leader,
        s is Defeated ==> probe_step(id, s, m).0 is Defeated && notify_step(id, s, n).0 is Defeated
            && driver_step(id, s).0 is Defeated,
{
}

/// A node out of the race originates no probe: its driver sends none, and a
/// probe it passes on is the one it received, unchanged, in the same
/// direction. Only a candidate's driver sends a probe, and it carries the
/// candidate's own id.
pub proof fn only_candidates_originate_probes(id: u64, s: NodeState, m: ProbeMessage)
    ensures
        !(s is Candidate) ==> !(driver_step(id, s).1 is SendProbe),
        driver_step(id, s).1 is SendProbe ==> s is Candidate && driver_step(id, s).1->0.sender_id == id,
        probe_step(id, s, m).1 is Forward ==> !(s is Candidate) && probe_step(id, s, m).1->0 == m
            && m.sender_id != id,
{
}

} // verus!
