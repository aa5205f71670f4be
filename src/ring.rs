use vstd::prelude::*;

use crate::node::Node;
use crate::role::NodeState;

verus! {

/// Position of the left neighbour of position `i` in a ring of `n`.
pub open spec fn left_of(n: int, i: int) -> int {
    (i + n - 1) % n
}

/// Position of the right neighbour of position `i` in a ring of `n`.
pub open spec fn right_of(n: int, i: int) -> int {
    (i + 1) % n
}

/// The positions of the left and right neighbours of position `i`.
pub fn neighbours(n: usize, i: usize) -> (r: (usize, usize))
    requires
        i < n,
    ensures
        r.0 == left_of(n as int, i as int),
        r.1 == right_of(n as int, i as int),
{
    let left: usize = if i == 0 { n - 1 } else { i - 1 };
    let right: usize = if i + 1 == n { 0 } else { i + 1 };
    proof {
        if i == 0 {
            assert(((i + n - 1) as int) % (n as int) == n - 1) by {
                vstd::arithmetic::div_mod::lemma_small_mod((n - 1) as nat, n as nat);
            };
        } else {
            assert(((i + n - 1) as int) % (n as int) == i - 1) by {
                vstd::arithmetic::div_mod::lemma_mod_add_multiples_vanish((i - 1) as int, n as int);
                vstd::arithmetic::div_mod::lemma_small_mod((i - 1) as nat, n as nat);
            };
        }
        if i + 1 == n {
            vstd::arithmetic::div_mod::lemma_mod_self_0(n as int);
        } else {
            vstd::arithmetic::div_mod::lemma_small_mod((i + 1) as nat, n as nat);
        }
    }
    (left, right)
}

/// No id occurs twice.
pub open spec fn distinct_ids(ids: Seq<u64>) -> bool {
    forall|i: int, j: int|
        0 <= i < ids.len() && 0 <= j < ids.len() && i != j ==> ids[i] != ids[j]
}

/// Tells whether every node of the ring would have an id of its own.
pub fn ids_distinct(ids: &Vec<u64>) -> (r: bool)
    ensures
        r == distinct_ids(ids@),
{
    let n: usize = ids.len();
    let mut i: usize = 0;
    while i < n
        invariant
            n == ids.len(),
            i <= n,
            forall|a: int, b: int| 0 <= a < i && 0 <= b < n && a != b ==> ids[a] != ids[b],
        decreases n - i,
    {
        let mut j: usize = 0;
        while j < n
            invariant
                n == ids.len(),
                i < n,
                j <= n,
                forall|a: int, b: int| 0 <= a < i && 0 <= b < n && a != b ==> ids[a] != ids[b],
                forall|b: int| 0 <= b < j && b != i ==> ids[i as int] != ids[b],
            decreases n - j,
        {
            if j != i && ids[i] == ids[j] {
                return false;
            }
            j += 1;
        }
        i += 1;
    }
    true
}

/// The listening port of node `id` on the loopback test bed.
pub fn listen_port(id: u64) -> (r: Option<u16>)
    ensures
        r == (if id <= 15535 { Some((50000 + id) as u16) } else { None::<u16> }),
{
    if id <= 15535 {
        Some((50000 + id) as u16)
    } else {
        None
    }
}

/// Sets up the nodes of a ring in the order given: node `i` has id `ids[i]`,
/// listens on `addrs[i]`, and is linked to the nodes before and after it,
/// wrapping around at both ends.
pub fn build_ring(ids: &Vec<u64>, addrs: &Vec<String>) -> (r: Vec<Node>)
    requires
        ids.len() >= 1,
        addrs.len() == ids.len(),
    ensures
        r.len() == ids.len(),
        forall|i: int|
            0 <= i < r.len() ==> {
                &&& #[trigger] r[i].id == ids[i]
                &&& r[i].left_addr == addrs[left_of(ids.len() as int, i)]
                &&& r[i].right_addr == addrs[right_of(ids.len() as int, i)]
                &&& r[i].state == NodeState::initial_spec()
            },
{
    let n: usize = ids.len();
    let mut r: Vec<Node> = Vec::new();
    let mut i: usize = 0;
    while i < n
        invariant
            n == ids.len(),
            addrs.len() == n,
            i <= n,
            r.len() == i,
            forall|j: int|
                0 <= j < i ==> {
                    &&& #[trigger] r[j].id == ids[j]
                    &&& r[j].left_addr == addrs[left_of(n as int, j)]
                    &&& r[j].right_addr == addrs[right_of(n as int, j)]
                    &&& r[j].state == NodeState::initial_spec()
                },
        decreases n - i,
    {
        let (l, rt) = neighbours(n, i);
        let node = Node::new(ids[i], addrs[l].clone(), addrs[rt].clone());
        r.push(node);
        i += 1;
    }
    r
}

} // verus!
