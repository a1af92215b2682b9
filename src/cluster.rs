use vstd::prelude::*;

verus! {

/// The quorum size of a cluster of `n` nodes.
pub open spec fn majority_of(n: int) -> int {
    (n - 1) / 2 + 1
}

/// The quorum size is at least half of the nodes; for an odd number of nodes
/// it is the smallest count above half.
pub proof fn lemma_majority_bounds(n: int)
    requires
        n >= 1,
    ensures
        2 * majority_of(n) >= n,
        n % 2 == 1 ==> 2 * majority_of(n) > n,
        2 * (majority_of(n) - 1) <= n,
        1 <= majority_of(n) <= n,
{
    vstd::arithmetic::div_mod::lemma_fundamental_div_mod(n - 1, 2);
}

/// Static description of the cluster, computed once at start-up.
pub struct ClusterInfo {
    pub node_number: u32,
    pub majority_number: u32,
    pub heartbeat_interval: u32,
    /// Addresses of the peers, in a fixed order.
    pub node_list: Vec<String>,
}

impl ClusterInfo {
    pub open spec fn wf(&self) -> bool {
        &&& self.node_number >= 1
        &&& self.majority_number == majority_of(self.node_number as int)
    }

    pub fn new(node_number: u32, heartbeat_interval: u32, node_list: Vec<String>) -> (r: ClusterInfo)
        requires
            node_number >= 1,
        ensures
            r.wf(),
            r.node_number == node_number,
            r.heartbeat_interval == heartbeat_interval,
            r.node_list@ == node_list@,
            2 * r.majority_number >= node_number,
            node_number % 2 == 1 ==> 2 * r.majority_number > node_number,
            2 * (r.majority_number - 1) <= node_number,
    {
        let majority_number: u32 = (node_number - 1) / 2 + 1;
        proof {
            lemma_majority_bounds(node_number as int);
        }
        ClusterInfo { node_number, majority_number, heartbeat_interval, node_list }
    }
}

} // verus!
