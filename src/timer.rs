use vstd::prelude::*;

verus! {

/// The election timeout drawn from `random`, spread evenly over
/// `[2 * heartbeat_interval, 4 * heartbeat_interval)` so that nodes seldom
/// time out together.
pub fn election_timeout(heartbeat_interval: u32, random: u64) -> (r: u64)
    requires
        heartbeat_interval >= 1,
    ensures
        r == 2 * heartbeat_interval + (random as int) % (2 * heartbeat_interval as int),
        2 * heartbeat_interval <= r < 4 * heartbeat_interval,
{
    let span: u64 = 2 * heartbeat_interval as u64;
    span + random % span
}

} // verus!
