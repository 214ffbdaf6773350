//! The node registry's decisions: which endpoints are tried, and which of
//! them make up the pool once every one has been tried.

use crate::error::JobError;
use vstd::prelude::*;

verus! {

/// The nodes of a job: the candidates whose session opened, by their position
/// in the list of candidates and in the order in which they were tried, and
/// one failure to report for every candidate that refused.
#[derive(Debug)]
pub struct Roster {
    pub nodes: Vec<usize>,
    pub refused: Vec<JobError>,
}

/// The ports of the range `[start_port, end_port)`, in ascending order. The
/// range is empty when `end_port` is not above `start_port`.
pub open spec fn port_range(start_port: nat, end_port: nat) -> Seq<u64> {
    if end_port <= start_port {
        Seq::empty()
    } else {
        Seq::new((end_port - start_port) as nat, |i: int| (start_port + i) as u64)
    }
}

/// The positions among the first `n` attempts whose outcome is `wanted`, in
/// ascending order.
pub open spec fn positions(attempts: Seq<bool>, n: nat, wanted: bool) -> Seq<usize> {
    Seq::new(n, |i: int| i as usize).filter(|i: usize| attempts[i as int] == wanted)
}

/// The failures to report for the first `n` attempts.
pub open spec fn refusals(attempts: Seq<bool>, n: nat) -> Seq<JobError> {
    positions(attempts, n, false).map_values(|i: usize| JobError::NodeConnectFailed(i))
}

/// Looking at one more attempt appends its position if it has the wanted
/// outcome, and changes nothing otherwise.
proof fn lemma_positions_step(attempts: Seq<bool>, n: nat, wanted: bool)
    requires
        n < attempts.len(),
        n <= usize::MAX,
    ensures
        positions(attempts, n + 1, wanted) == (if attempts[n as int] == wanted {
            positions(attempts, n, wanted).push(n as usize)
        } else {
            positions(attempts, n, wanted)
        }),
{
    let longer = Seq::new(n + 1, |i: int| i as usize);
    let shorter = Seq::new(n, |i: int| i as usize);
    assert(longer.drop_last() =~= shorter);
    assert(longer.last() == n as usize);
    reveal(Seq::filter);
}

/// A pool is empty exactly when every attempt failed.
pub proof fn lemma_no_node_opened(attempts: Seq<bool>, n: nat)
    requires
        n <= attempts.len(),
        n <= usize::MAX,
    ensures
        positions(attempts, n, true).len() == 0 <==> (forall|i: int| 0 <= i < n ==> !attempts[i]),
    decreases n,
{
    if n == 0 {
        reveal(Seq::filter);
    } else {
        lemma_no_node_opened(attempts, (n - 1) as nat);
        lemma_positions_step(attempts, (n - 1) as nat, true);
    }
}

/// The ports to try, in the order in which they are tried.
pub fn candidate_ports(start_port: u64, end_port: u64) -> (ports: Vec<u64>)
    ensures
        ports@ == port_range(start_port as nat, end_port as nat),
{
    let mut ports: Vec<u64> = Vec::new();
    let mut port: u64 = start_port;
    while port < end_port
        invariant
            start_port <= port <= end_port || (end_port < start_port && port == start_port),
            ports@ == port_range(start_port as nat, port as nat),
        decreases end_port - port,
    {
        ports.push(port);
        port += 1;
        assert(ports@ =~= port_range(start_port as nat, port as nat));
    }
    assert(ports@ =~= port_range(start_port as nat, end_port as nat));
    ports
}

/// Sorts the candidates into those that opened and those that refused.
/// `attempts` holds, for each candidate in the order tried, whether its
/// session opened. Fails with `NoNodesAvailable` exactly when none did.
pub fn enroll(attempts: &Vec<bool>) -> (res: Result<Roster, JobError>)
    ensures
        res is Err <==> (forall|i: int| 0 <= i < attempts.len() ==> !attempts@[i]),
        res matches Err(e) ==> e == JobError::NoNodesAvailable,
        res matches Ok(roster) ==> roster.nodes@ == positions(attempts@, attempts@.len(), true)
            && roster.refused@ == refusals(attempts@, attempts@.len()),
{
    let count: usize = attempts.len();
    let mut nodes: Vec<usize> = Vec::new();
    let mut refused: Vec<JobError> = Vec::new();
    let mut position: usize = 0;
    proof {
        reveal(Seq::filter);
        assert(refusals(attempts@, 0) =~= Seq::<JobError>::empty());
    }
    while position < count
        invariant
            position <= count,
            count == attempts.len(),
            nodes@ == positions(attempts@, position as nat, true),
            refused@ == refusals(attempts@, position as nat),
        decreases count - position,
    {
        proof {
            lemma_positions_step(attempts@, position as nat, true);
            lemma_positions_step(attempts@, position as nat, false);
        }
        if attempts[position] {
            nodes.push(position);
        } else {
            refused.push(JobError::NodeConnectFailed(position));
            assert(refused@ =~= refusals(attempts@, (position + 1) as nat));
        }
        position += 1;
    }
    proof {
        lemma_no_node_opened(attempts@, count as nat);
    }
    if nodes.len() == 0 {
        Err(JobError::NoNodesAvailable)
    } else {
        Ok(Roster { nodes, refused })
    }
}

} // verus!
