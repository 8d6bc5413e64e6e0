use vstd::prelude::*;

use vstd::string::StringExecFns;

use crate::until::fresh_node_id;

verus! {

/// Process-wide settings: the node's identity, the discovery group and its
/// timing, the command server's endpoint, and the consensus tick counts.
/// All intervals are in milliseconds.
pub struct Config {
    pub node_id: u64,
    pub disc_multicast_group: String,
    pub disc_multicast_port: usize,
    pub disc_multicast_interval_ms: u64,
    pub disc_multicast_ttl_ms: u64,
    pub disc_multicast_ttl_check_interval_ms: u64,
    pub listen_port: usize,
    pub listen_addr: String,
    pub raft_election_tick: usize,
    pub raft_heartbeat_tick: usize,
    pub raft_loop_interval_ms: u64,
}

impl Config {
    /// The defaults, under a freshly drawn node identity: announce every
    /// ten seconds, keep peers for thirty, sweep every ten, listen on port
    /// 7111 on every interface, and drive consensus once a second.
    pub fn new() -> (r: Self)
        ensures
            r.disc_multicast_group@ == "224.0.0.1"@,
            r.disc_multicast_port == 54123,
            r.disc_multicast_interval_ms == 10000,
            r.disc_multicast_ttl_ms == 30000,
            r.disc_multicast_ttl_check_interval_ms == 10000,
            r.listen_port == 7111,
            r.listen_addr@ == "0.0.0.0"@,
            r.raft_election_tick == 10,
            r.raft_heartbeat_tick == 3,
            r.raft_loop_interval_ms == 1000,
    {
        let node_id = fresh_node_id();
        Config {
            node_id,
            disc_multicast_group: String::from_str("224.0.0.1"),
            disc_multicast_port: 54123,
            disc_multicast_interval_ms: 10000,
            disc_multicast_ttl_ms: 30000,
            disc_multicast_ttl_check_interval_ms: 10000,
            listen_port: 7111,
            listen_addr: String::from_str("0.0.0.0"),
            raft_election_tick: 10,
            raft_heartbeat_tick: 3,
            raft_loop_interval_ms: 1000,
        }
    }
}

impl Default for Config {
    fn default() -> (r: Self)
        ensures
            r.disc_multicast_port == 54123,
            r.listen_port == 7111,
    {
        Config::new()
    }
}

} // verus!
