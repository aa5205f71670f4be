use vstd::prelude::*;

use crate::protocol::{
    driver_step, notify_admissible, notify_step, probe_admissible, probe_step, DriverAction,
    NotifyMessage, ProbeAction, ProbeMessage,
};
use crate::ring::{distinct_ids, left_of, right_of};
use crate::role::NodeState;

verus! {

/// A whole ring during an election: the state of the node at each position,
/// whether its driver has exited, and the probes and announcements in
/// flight. A message in flight is kept as `(message, position of its sender,
/// links crossed so far)`.
pub struct RingState {
    pub roles: Seq<NodeState>,
    pub stopped: Seq<bool>,
    pub probes: Seq<(ProbeMessage, int, int)>,
    pub notes: Seq<(NotifyMessage, int, int)>,
}

/// The position reached from `origin` after crossing `hops` links (at most
/// one lap) in one direction.
pub open spec fn hop(n: int, origin: int, hops: int, left: bool) -> int {
    if left {
        if origin - hops >= 0 {
            origin - hops
        } else {
            origin - hops + n
        }
    } else {
        if origin + hops < n {
            origin + hops
        } else {
            origin + hops - n
        }
    }
}

/// Where a probe in flight is delivered next.
pub open spec fn probe_target(n: int, p: (ProbeMessage, int, int)) -> int {
    hop(n, p.1, p.2, p.0.headed_left)
}

/// Where an announcement in flight is delivered next.
pub open spec fn note_target(n: int, q: (NotifyMessage, int, int)) -> int {
    hop(n, q.1, q.2, q.0.headed_left)
}

/// Every node at the start of an election, nothing in flight.
pub open spec fn is_initial(ids: Seq<u64>, r: RingState) -> bool {
    &&& r.roles.len() == ids.len()
    &&& forall|i: int| 0 <= i < r.roles.len() ==> r.roles[i] == NodeState::initial_spec()
    &&& r.stopped.len() == ids.len()
    &&& forall|i: int| 0 <= i < r.stopped.len() ==> !r.stopped[i]
    &&& r.probes.len() == 0
    &&& r.notes.len() == 0
}

/// The driver of the node at position `k` takes one step.
pub open spec fn drive_event(ids: Seq<u64>, r: RingState, r2: RingState, k: int) -> bool {
    let step = driver_step(ids[k], r.roles[k]);
    &&& 0 <= k < ids.len()
    &&& !r.stopped[k]
    &&& r2.roles == r.roles.update(k, step.0)
    &&& r2.stopped == r.stopped.update(k, step.1 is Announce || step.1 is Stop)
    &&& match step.1 {
        DriverAction::SendProbe(m) => r2.probes == r.probes.push((m, k, 1)) && r2.notes == r.notes,
        DriverAction::Announce { left, right } => r2.probes == r.probes && r2.notes == r.notes.push(
            (left, k, 1),
        ).push((right, k, 1)),
        _ => r2.probes == r.probes && r2.notes == r.notes,
    }
}

/// The probe in flight at index `x` is offered to the node it has reached.
pub open spec fn probe_event(ids: Seq<u64>, r: RingState, r2: RingState, x: int) -> bool {
    let p = r.probes[x];
    let k = probe_target(ids.len() as int, p);
    let step = probe_step(ids[k], r.roles[k], p.0);
    &&& 0 <= x < r.probes.len()
    &&& 0 <= k < ids.len()
    &&& probe_admissible(ids[k], r.roles[k], p.0)
    &&& r2.roles == r.roles.update(k, step.0)
    &&& r2.stopped == r.stopped
    &&& r2.notes == r.notes
    &&& match step.1 {
        ProbeAction::Wait => r2.probes == r.probes,
        ProbeAction::Forward(m) => r2.probes == r.probes.update(x, (m, p.1, p.2 + 1)),
        _ => r2.probes == r.probes.remove(x),
    }
}

/// The announcement in flight at index `x` is delivered to the node it has
/// reached.
pub open spec fn notify_event(ids: Seq<u64>, r: RingState, r2: RingState, x: int) -> bool {
    let q = r.notes[x];
    let k = note_target(ids.len() as int, q);
    let step = notify_step(ids[k], r.roles[k], q.0);
    &&& 0 <= x < r.notes.len()
    &&& 0 <= k < ids.len()
    &&& notify_admissible(ids[k], r.roles[k], q.0)
    &&& r2.roles == r.roles.update(k, step.0)
    &&& r2.stopped == r.stopped
    &&& r2.probes == r.probes
    &&& match step.1 {
        Some(m) => r2.notes == r.notes.update(x, (m, q.1, q.2 + 1)),
        None => r2.notes == r.notes.remove(x),
    }
}

/// One step of the ring: any driver moves, or any message in flight is
/// delivered, in any order.
pub open spec fn ring_next(ids: Seq<u64>, r: RingState, r2: RingState) -> bool {
    ||| exists|k: int| drive_event(ids, r, r2, k)
    ||| exists|x: int| probe_event(ids, r, r2, x)
    ||| exists|x: int| notify_event(ids, r, r2, x)
}

/// `run` is an execution of the election on the ring `ids`.
pub open spec fn is_run(ids: Seq<u64>, run: Seq<RingState>) -> bool {
    &&& run.len() >= 1
    &&& is_initial(ids, run[0])
    &&& forall|t: int| 0 <= t < run.len() - 1 ==> #[trigger] ring_next(ids, run[t], run[t + 1])
}

/// A probe in flight came from the node at its recorded position, and every
/// node it has passed had stopped competing.
pub open spec fn probe_inv(ids: Seq<u64>, roles: Seq<NodeState>, p: (ProbeMessage, int, int)) -> bool {
    let n = ids.len() as int;
    &&& 0 <= p.1 < n
    &&& 1 <= p.2 <= n
    &&& p.0.sender_id == ids[p.1]
    &&& forall|j: int|
        1 <= j < p.2 ==> !(roles[#[trigger] hop(n, p.1, j, p.0.headed_left)] is Candidate)
}

/// An announcement in flight came from the leader.
pub open spec fn note_inv(ids: Seq<u64>, roles: Seq<NodeState>, q: (NotifyMessage, int, int)) -> bool {
    let n = ids.len() as int;
    &&& 0 <= q.1 < n
    &&& 1 <= q.2 <= n
    &&& q.0.leader_id == ids[q.1]
    &&& roles[q.1] is Leader
}

pub open spec fn ring_inv(ids: Seq<u64>, r: RingState) -> bool {
    &&& r.roles.len() == ids.len()
    &&& forall|i: int, j: int|
        #![trigger r.roles[i], r.roles[j]]
        0 <= i < ids.len() && 0 <= j < ids.len() && i != j && r.roles[i] is Leader
            ==> r.roles[j] is Defeated
    &&& forall|x: int| 0 <= x < r.probes.len() ==> probe_inv(ids, r.roles, #[trigger] r.probes[x])
    &&& forall|x: int| 0 <= x < r.notes.len() ==> note_inv(ids, r.roles, #[trigger] r.notes[x])
    &&& forall|j: int| 0 <= j < ids.len() ==> records_leader(ids, r.roles, #[trigger] r.roles[j])
    &&& forall|m: int| is_largest(ids, m) ==> !(#[trigger] r.roles[m] is Defeated)
    &&& r.stopped.len() == ids.len()
    &&& forall|k: int| 0 <= k < ids.len() && #[trigger] r.stopped[k] ==> !(r.roles[k] is Candidate)
    &&& forall|x: int| 0 <= x < r.notes.len() ==> sweep_inv(ids, r.roles, #[trigger] r.notes[x])
    &&& forall|l: int|
        0 <= l < ids.len() && #[trigger] r.stopped[l] && r.roles[l] is Leader ==> r.notes.len() > 0
            || all_recorded(ids, r.roles, l)
}

/// Every node that an announcement has passed records its sender as leader.
pub open spec fn sweep_inv(ids: Seq<u64>, roles: Seq<NodeState>, q: (NotifyMessage, int, int)) -> bool {
    let n = ids.len() as int;
    forall|j: int|
        1 <= j < q.2 ==> roles[#[trigger] hop(n, q.1, j, q.0.headed_left)] == (NodeState::Defeated {
            leader: Some(ids[q.1]),
        })
}

/// Every node but the one at position `l` has lost and records `l`'s id as
/// leader.
pub open spec fn all_recorded(ids: Seq<u64>, roles: Seq<NodeState>, l: int) -> bool {
    forall|j: int|
        0 <= j < ids.len() && j != l ==> #[trigger] roles[j] == (NodeState::Defeated {
            leader: Some(ids[l]),
        })
}

/// Nothing is in flight and every driver has exited.
pub open spec fn terminated(r: RingState) -> bool {
    &&& r.probes.len() == 0
    &&& r.notes.len() == 0
    &&& forall|k: int| 0 <= k < r.stopped.len() ==> #[trigger] r.stopped[k]
}

/// Position `m` holds the largest id of the ring.
pub open spec fn is_largest(ids: Seq<u64>, m: int) -> bool {
    &&& 0 <= m < ids.len()
    &&& forall|i: int| 0 <= i < ids.len() ==> #[trigger] ids[i] <= ids[m]
}

/// A recorded leader, if any, is the id of a node that is leader.
pub open spec fn records_leader(ids: Seq<u64>, roles: Seq<NodeState>, s: NodeState) -> bool {
    s matches NodeState::Defeated { leader: Some(l) } ==> exists|i: int|
        0 <= i < ids.len() && ids[i] == l && #[trigger] roles[i] is Leader
}

/// From `roles` to `roles2` no node went back into the race or left a final
/// role.
pub open spec fn only_settles(roles: Seq<NodeState>, roles2: Seq<NodeState>) -> bool {
    &&& roles2.len() == roles.len()
    &&& forall|j: int|
        0 <= j < roles.len() ==> {
            &&& (!(#[trigger] roles[j] is Candidate) ==> !(roles2[j] is Candidate))
            &&& (roles[j] is Leader ==> roles2[j] is Leader)
            &&& (roles[j] is Defeated ==> roles2[j] is Defeated)
        }
}

/// Crossing one more link leads to the neighbour in the direction of travel.
pub proof fn hop_follows_link(n: int, origin: int, hops: int, left: bool)
    requires
        0 <= origin < n,
        0 <= hops < n,
    ensures
        left ==> hop(n, origin, hops + 1, left) == left_of(n, hop(n, origin, hops, left)),
        !left ==> hop(n, origin, hops + 1, left) == right_of(n, hop(n, origin, hops, left)),
{
    let k = hop(n, origin, hops, left);
    if left {
        if k == 0 {
            vstd::arithmetic::div_mod::lemma_small_mod((n - 1) as nat, n as nat);
        } else {
            vstd::arithmetic::div_mod::lemma_mod_add_multiples_vanish(k - 1, n);
            vstd::arithmetic::div_mod::lemma_small_mod((k - 1) as nat, n as nat);
        }
    } else {
        if k + 1 == n {
            vstd::arithmetic::div_mod::lemma_mod_self_0(n);
        } else {
            vstd::arithmetic::div_mod::lemma_small_mod((k + 1) as nat, n as nat);
        }
    }
}

proof fn lemma_hop_returns(n: int, origin: int, hops: int, left: bool)
    requires
        0 <= origin < n,
        1 <= hops <= n,
    ensures
        0 <= hop(n, origin, hops, left) < n,
        hop(n, origin, hops, left) == origin <==> hops == n,
{
}

proof fn lemma_hop_covers(n: int, origin: int, k: int, left: bool) -> (j: int)
    requires
        0 <= origin < n,
        0 <= k < n,
        k != origin,
    ensures
        1 <= j < n,
        hop(n, origin, j, left) == k,
{
    if left {
        if origin > k {
            origin - k
        } else {
            origin - k + n
        }
    } else {
        if k > origin {
            k - origin
        } else {
            k - origin + n
        }
    }
}

proof fn lemma_settled_keeps_messages(ids: Seq<u64>, roles: Seq<NodeState>, roles2: Seq<NodeState>)
    requires
        roles.len() == ids.len(),
        only_settles(roles, roles2),
    ensures
        forall|p: (ProbeMessage, int, int)|
            probe_inv(ids, roles, p) ==> #[trigger] probe_inv(ids, roles2, p),
        forall|q: (NotifyMessage, int, int)|
            note_inv(ids, roles, q) ==> #[trigger] note_inv(ids, roles2, q),
{
    let n = ids.len() as int;
    assert forall|p: (ProbeMessage, int, int)|
        probe_inv(ids, roles, p) implies #[trigger] probe_inv(ids, roles2, p) by {
        assert forall|j: int| 1 <= j < p.2 implies !(roles2[#[trigger] hop(n, p.1, j, p.0.headed_left)] is Candidate) by {
            lemma_hop_returns(n, p.1, j, p.0.headed_left);
            let k = hop(n, p.1, j, p.0.headed_left);
            assert(!(roles[k] is Candidate));
        }
    }
}

proof fn lemma_settled_keeps_records(ids: Seq<u64>, roles: Seq<NodeState>, roles2: Seq<NodeState>, s: NodeState)
    requires
        roles.len() == ids.len(),
        only_settles(roles, roles2),
        records_leader(ids, roles, s),
    ensures
        records_leader(ids, roles2, s),
{
    if let NodeState::Defeated { leader: Some(l) } = s {
        let i = choose|i: int| 0 <= i < ids.len() && ids[i] == l && #[trigger] roles[i] is Leader;
        assert(roles2[i] is Leader);
    }
}

proof fn lemma_initial_inv(ids: Seq<u64>, r: RingState)
    requires
        is_initial(ids, r),
    ensures
        ring_inv(ids, r),
{
}

proof fn lemma_drive_keeps_inv(ids: Seq<u64>, r: RingState, r2: RingState, k: int)
    requires
        ids.len() >= 1,
        distinct_ids(ids),
        ring_inv(ids, r),
        drive_event(ids, r, r2, k),
    ensures
        ring_inv(ids, r2),
{
    let n = ids.len() as int;
    assert(only_settles(r.roles, r2.roles));
    lemma_settled_keeps_messages(ids, r.roles, r2.roles);
    assert forall|x: int| 0 <= x < r2.probes.len() implies probe_inv(ids, r2.roles, #[trigger] r2.probes[x]) by {
        if x < r.probes.len() {
            assert(probe_inv(ids, r.roles, r.probes[x]));
        }
    }
    assert forall|x: int| 0 <= x < r2.notes.len() implies note_inv(ids, r2.roles, #[trigger] r2.notes[x]) by {
        if x < r.notes.len() {
            assert(note_inv(ids, r.roles, r.notes[x]));
        }
    }
    assert forall|j: int| 0 <= j < n implies records_leader(ids, r2.roles, #[trigger] r2.roles[j]) by {
        assert(records_leader(ids, r.roles, r.roles[j]));
        lemma_settled_keeps_records(ids, r.roles, r2.roles, r.roles[j]);
    }
    assert forall|m: int| is_largest(ids, m) implies !(#[trigger] r2.roles[m] is Defeated) by {
        assert(!(r.roles[m] is Defeated));
    }
}

proof fn lemma_probe_keeps_inv(ids: Seq<u64>, r: RingState, r2: RingState, x: int)
    requires
        ids.len() >= 1,
        distinct_ids(ids),
        ring_inv(ids, r),
        probe_event(ids, r, r2, x),
    ensures
        ring_inv(ids, r2),
{
    let n = ids.len() as int;
    let p = r.probes[x];
    let k = probe_target(n, p);
    let step = probe_step(ids[k], r.roles[k], p.0);
    assert(probe_inv(ids, r.roles, p));
    lemma_hop_returns(n, p.1, p.2, p.0.headed_left);
    assert(only_settles(r.roles, r2.roles));
    lemma_settled_keeps_messages(ids, r.roles, r2.roles);
    if step.1 == ProbeAction::Elected {
        assert(k == p.1);
        assert forall|j: int| 0 <= j < n && j != k implies r2.roles[j] is Defeated by {
            let jj = lemma_hop_covers(n, p.1, j, p.0.headed_left);
            assert(!(r.roles[hop(n, p.1, jj, p.0.headed_left)] is Candidate));
            if r.roles[j] is Leader {
                assert(r.roles[k] is Defeated);
            }
        }
    }
    assert forall|y: int| 0 <= y < r2.probes.len() implies probe_inv(ids, r2.roles, #[trigger] r2.probes[y]) by {
        match step.1 {
            ProbeAction::Wait => {
                assert(probe_inv(ids, r.roles, r.probes[y]));
            },
            ProbeAction::Forward(m) => {
                assert(probe_inv(ids, r.roles, r.probes[y]));
                if y == x {
                    assert(k != p.1);
                    let q = r2.probes[y];
                    assert forall|j: int| 1 <= j < q.2 implies !(r2.roles[#[trigger] hop(n, q.1, j, q.0.headed_left)] is Candidate) by {
                        if j < p.2 {
                            assert(!(r.roles[hop(n, p.1, j, p.0.headed_left)] is Candidate));
                        }
                    }
                }
            },
            _ => {
                if y < x {
                    assert(probe_inv(ids, r.roles, r.probes[y]));
                } else {
                    assert(probe_inv(ids, r.roles, r.probes[y + 1]));
                }
            },
        }
    }
    assert forall|y: int| 0 <= y < r2.notes.len() implies note_inv(ids, r2.roles, #[trigger] r2.notes[y]) by {
        assert(note_inv(ids, r.roles, r.notes[y]));
    }
    assert forall|j: int| 0 <= j < n implies records_leader(ids, r2.roles, #[trigger] r2.roles[j]) by {
        assert(records_leader(ids, r.roles, r.roles[j]));
        lemma_settled_keeps_records(ids, r.roles, r2.roles, r.roles[j]);
    }
    assert forall|m: int| is_largest(ids, m) implies !(#[trigger] r2.roles[m] is Defeated) by {
        assert(!(r.roles[m] is Defeated));
        if m == k {
            assert(ids[p.1] <= ids[m]);
        }
    }
}

proof fn lemma_notify_keeps_inv(ids: Seq<u64>, r: RingState, r2: RingState, x: int)
    requires
        ids.len() >= 1,
        distinct_ids(ids),
        ring_inv(ids, r),
        notify_event(ids, r, r2, x),
    ensures
        ring_inv(ids, r2),
{
    let n = ids.len() as int;
    let q = r.notes[x];
    let k = note_target(n, q);
    assert(note_inv(ids, r.roles, q));
    lemma_hop_returns(n, q.1, q.2, q.0.headed_left);
    assert(only_settles(r.roles, r2.roles));
    lemma_settled_keeps_messages(ids, r.roles, r2.roles);
    assert forall|y: int| 0 <= y < r2.probes.len() implies probe_inv(ids, r2.roles, #[trigger] r2.probes[y]) by {
        assert(probe_inv(ids, r.roles, r.probes[y]));
    }
    assert forall|y: int| 0 <= y < r2.notes.len() implies note_inv(ids, r2.roles, #[trigger] r2.notes[y]) by {
        if q.0.leader_id == ids[k] {
            if y < x {
                assert(note_inv(ids, r.roles, r.notes[y]));
            } else {
                assert(note_inv(ids, r.roles, r.notes[y + 1]));
            }
        } else {
            assert(note_inv(ids, r.roles, r.notes[y]));
            assert(k != q.1);
        }
    }
    assert forall|j: int| 0 <= j < n implies records_leader(ids, r2.roles, #[trigger] r2.roles[j]) by {
        if j == k && q.0.leader_id != ids[k] {
            assert(r2.roles[q.1] is Leader);
        } else {
            assert(records_leader(ids, r.roles, r.roles[j]));
            lemma_settled_keeps_records(ids, r.roles, r2.roles, r.roles[j]);
        }
    }
    assert forall|m: int| is_largest(ids, m) implies !(#[trigger] r2.roles[m] is Defeated) by {
        assert(!(r.roles[m] is Defeated));
        if m == k && q.0.leader_id != ids[k] {
            assert(r.roles[q.1] is Leader);
            assert(r.roles[q.1] is Leader && r.roles[m] is Defeated);
        }
    }
    let o = q.1;
    let forwarded = q.0.leader_id != ids[k];
    assert forall|y: int| 0 <= y < r2.notes.len() implies sweep_inv(ids, r2.roles, #[trigger] r2.notes[y]) by {
        let yy = if !forwarded && y >= x { y + 1 } else { y };
        let qy = r.notes[yy];
        assert(r2.notes[y] == qy || (forwarded && y == x));
        assert(note_inv(ids, r.roles, qy));
        assert(sweep_inv(ids, r.roles, qy));
        if qy.1 != o {
            assert(r.roles[qy.1] is Leader && r.roles[o] is Defeated);
        }
        let q2 = r2.notes[y];
        assert forall|j: int| 1 <= j < q2.2 implies r2.roles[#[trigger] hop(n, q2.1, j, q2.0.headed_left)] == (NodeState::Defeated {
            leader: Some(ids[q2.1]),
        }) by {
            if j < qy.2 {
                assert(r.roles[hop(n, qy.1, j, qy.0.headed_left)] == (NodeState::Defeated {
                    leader: Some(ids[qy.1]),
                }));
            }
        }
    }
    assert forall|l: int|
        0 <= l < n && #[trigger] r2.stopped[l] && r2.roles[l] is Leader implies r2.notes.len() > 0
            || all_recorded(ids, r2.roles, l) by {
        if l != o {
            assert(r.roles[l] is Leader && r.roles[o] is Defeated);
        }
        if !forwarded {
            assert(k == o);
            assert(q.2 == n);
            assert forall|j: int| 0 <= j < n && j != o implies #[trigger] r2.roles[j] == (NodeState::Defeated {
                leader: Some(ids[o]),
            }) by {
                let jj = lemma_hop_covers(n, o, j, q.0.headed_left);
                assert(r.roles[hop(n, o, jj, q.0.headed_left)] == (NodeState::Defeated {
                    leader: Some(ids[o]),
                }));
            }
        }
    }
}

proof fn lemma_next_keeps_inv(ids: Seq<u64>, r: RingState, r2: RingState)
    requires
        ids.len() >= 1,
        distinct_ids(ids),
        ring_inv(ids, r),
        ring_next(ids, r, r2),
    ensures
        ring_inv(ids, r2),
{
    if exists|k: int| drive_event(ids, r, r2, k) {
        let k = choose|k: int| drive_event(ids, r, r2, k);
        lemma_drive_keeps_inv(ids, r, r2, k);
    } else if exists|x: int| probe_event(ids, r, r2, x) {
        let x = choose|x: int| probe_event(ids, r, r2, x);
        lemma_probe_keeps_inv(ids, r, r2, x);
    } else {
        let x = choose|x: int| notify_event(ids, r, r2, x);
        lemma_notify_keeps_inv(ids, r, r2, x);
    }
}

proof fn lemma_run_inv(ids: Seq<u64>, run: Seq<RingState>, t: int)
    requires
        ids.len() >= 1,
        distinct_ids(ids),
        is_run(ids, run),
        0 <= t < run.len(),
    ensures
        ring_inv(ids, run[t]),
    decreases t,
{
    if t == 0 {
        lemma_initial_inv(ids, run[0]);
    } else {
        let tp = t - 1;
        lemma_run_inv(ids, run, tp);
        assert(ring_next(ids, run[tp], run[tp + 1]));
        lemma_next_keeps_inv(ids, run[tp], run[tp + 1]);
    }
}

proof fn lemma_next_settles(ids: Seq<u64>, r: RingState, r2: RingState)
    requires
        ring_inv(ids, r),
        ring_next(ids, r, r2),
    ensures
        only_settles(r.roles, r2.roles),
{
    if exists|k: int| drive_event(ids, r, r2, k) {
        let k = choose|k: int| drive_event(ids, r, r2, k);
        assert(only_settles(r.roles, r2.roles));
    } else if exists|x: int| probe_event(ids, r, r2, x) {
        let x = choose|x: int| probe_event(ids, r, r2, x);
        assert(only_settles(r.roles, r2.roles));
    } else {
        let x = choose|x: int| notify_event(ids, r, r2, x);
        assert(only_settles(r.roles, r2.roles));
    }
}

/// Once the node at position `i` has become leader, it stays leader for the
/// rest of the run.
pub proof fn leader_stays_leader(ids: Seq<u64>, run: Seq<RingState>, t1: int, t2: int, i: int)
    requires
        ids.len() >= 1,
        distinct_ids(ids),
        is_run(ids, run),
        0 <= t1 <= t2 < run.len(),
        0 <= i < ids.len(),
        run[t1].roles[i] is Leader,
    ensures
        run[t2].roles[i] is Leader,
    decreases t2 - t1,
{
    if t1 < t2 {
        lemma_run_inv(ids, run, t1);
        assert(ring_next(ids, run[t1], run[t1 + 1]));
        lemma_next_settles(ids, run[t1], run[t1 + 1]);
        leader_stays_leader(ids, run, t1 + 1, t2, i);
    }
}

/// In any run of the election on a ring of distinct ids, at most one node
/// ever becomes leader: two nodes seen as leader, at any two moments, are
/// the same node.
pub proof fn leader_is_unique(ids: Seq<u64>, run: Seq<RingState>, t1: int, t2: int, i: int, j: int)
    requires
        ids.len() >= 1,
        distinct_ids(ids),
        is_run(ids, run),
        0 <= t1 < run.len(),
        0 <= t2 < run.len(),
        0 <= i < ids.len(),
        0 <= j < ids.len(),
        run[t1].roles[i] is Leader,
        run[t2].roles[j] is Leader,
    ensures
        i == j,
{
    if t1 <= t2 {
        leader_stays_leader(ids, run, t1, t2, i);
        lemma_run_inv(ids, run, t2);
    } else {
        leader_stays_leader(ids, run, t2, t1, j);
        lemma_run_inv(ids, run, t1);
    }
}

/// The only node that can ever lead is the one with the largest id: that
/// node never concedes, since no probe comes from a larger id, and no
/// announcement of another leader can reach it.
pub proof fn leader_has_largest_id(ids: Seq<u64>, run: Seq<RingState>, t: int, i: int)
    requires
        ids.len() >= 1,
        distinct_ids(ids),
        is_run(ids, run),
        0 <= t < run.len(),
        0 <= i < ids.len(),
        run[t].roles[i] is Leader,
    ensures
        forall|j: int| 0 <= j < ids.len() ==> #[trigger] ids[j] <= ids[i],
{
    lemma_run_inv(ids, run, t);
    let m = lemma_largest_exists(ids);
    assert(!(run[t].roles[m] is Defeated));
    if m != i {
        assert(run[t].roles[i] is Leader && run[t].roles[m] is Defeated);
    }
}

proof fn lemma_largest_exists(ids: Seq<u64>) -> (m: int)
    requires
        ids.len() >= 1,
    ensures
        is_largest(ids, m),
    decreases ids.len(),
{
    if ids.len() == 1 {
        0
    } else {
        let m0 = lemma_largest_exists(ids.drop_last());
        let last = ids.len() - 1;
        assert(ids.drop_last()[m0] == ids[m0]);
        if ids[m0] < ids[last] {
            assert forall|i: int| 0 <= i < ids.len() implies #[trigger] ids[i] <= ids[last] by {
                if i < last {
                    assert(ids.drop_last()[i] == ids[i]);
                }
            }
            last
        } else {
            assert forall|i: int| 0 <= i < ids.len() implies #[trigger] ids[i] <= ids[m0] by {
                if i < last {
                    assert(ids.drop_last()[i] == ids[i]);
                }
            }
            m0
        }
    }
}

/// Once an election has terminated — nothing in flight and every driver
/// exited — the node with the largest id leads, and every other node has lost
/// and records that id as leader: each has received its announcement.
pub proof fn termination_settles_every_node(ids: Seq<u64>, run: Seq<RingState>, t: int)
    requires
        ids.len() >= 1,
        distinct_ids(ids),
        is_run(ids, run),
        0 <= t < run.len(),
        terminated(run[t]),
    ensures
        exists|l: int|
            #[trigger] is_largest(ids, l) && run[t].roles[l] is Leader && all_recorded(ids, run[t].roles, l),
{
    lemma_run_inv(ids, run, t);
    let r = run[t];
    let m = lemma_largest_exists(ids);
    assert(r.stopped[m]);
    assert(r.roles[m] is Leader);
    assert(all_recorded(ids, r.roles, m));
}

/// In any run, an announcement in flight was sent by the leader, which holds
/// the largest id; it has crossed at most one lap of links, so it returns to
/// the leader within one sweep; and every node it has passed has lost and
/// records the leader's id.
pub proof fn announcement_sweeps_record_the_leader(ids: Seq<u64>, run: Seq<RingState>, t: int, x: int)
    requires
        ids.len() >= 1,
        distinct_ids(ids),
        is_run(ids, run),
        0 <= t < run.len(),
        0 <= x < run[t].notes.len(),
    ensures
        ({
            let q = run[t].notes[x];
            &&& 1 <= q.2 <= ids.len()
            &&& q.0.leader_id == ids[q.1]
            &&& is_largest(ids, q.1)
            &&& run[t].roles[q.1] is Leader
            &&& forall|j: int|
                1 <= j < q.2 ==> run[t].roles[#[trigger] hop(ids.len() as int, q.1, j, q.0.headed_left)]
                    == (NodeState::Defeated { leader: Some(q.0.leader_id) })
        }),
{
    lemma_run_inv(ids, run, t);
    let q = run[t].notes[x];
    assert(note_inv(ids, run[t].roles, q));
    assert(sweep_inv(ids, run[t].roles, q));
    leader_has_largest_id(ids, run, t, q.1);
}

/// In any run, a node that has recorded a leader recorded the id of the node
/// that is leader at that moment, and every announcement in flight may be
/// delivered: no node is ever told of a leader other than itself while it
/// leads.
pub proof fn announcements_name_the_leader(ids: Seq<u64>, run: Seq<RingState>, t: int)
    requires
        ids.len() >= 1,
        distinct_ids(ids),
        is_run(ids, run),
        0 <= t < run.len(),
    ensures
        forall|j: int|
            0 <= j < ids.len() ==> (#[trigger] run[t].roles[j] matches NodeState::Defeated {
                leader: Some(l),
            } ==> exists|i: int| 0 <= i < ids.len() && ids[i] == l && run[t].roles[i] is Leader),
        forall|x: int|
            0 <= x < run[t].notes.len() ==> {
                let q = #[trigger] run[t].notes[x];
                let k = note_target(ids.len() as int, q);
                &&& 0 <= k < ids.len()
                &&& notify_admissible(ids[k], run[t].roles[k], q.0)
            },
{
    lemma_run_inv(ids, run, t);
    let r = run[t];
    let n = ids.len() as int;
    assert forall|j: int| 0 <= j < n implies (#[trigger] r.roles[j] matches NodeState::Defeated {
        leader: Some(l),
    } ==> exists|i: int| 0 <= i < n && ids[i] == l && r.roles[i] is Leader) by {
        assert(records_leader(ids, r.roles, r.roles[j]));
    }
    assert forall|x: int| 0 <= x < r.notes.len() implies {
        let q = #[trigger] r.notes[x];
        let k = note_target(n, q);
        &&& 0 <= k < n
        &&& notify_admissible(ids[k], r.roles[k], q.0)
    } by {
        let q = r.notes[x];
        assert(note_inv(ids, r.roles, q));
        lemma_hop_returns(n, q.1, q.2, q.0.headed_left);
    }
}

} // verus!
