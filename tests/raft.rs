use raft_node::cluster::ClusterInfo;
use raft_node::message::{AppendEntries, AppendReply, Envelope, LogEntry, Message, RequestVote, VoteReply};
use raft_node::role::Role;
use raft_node::state::{count_at_least_exec, find_index, ProposeError, RaftState};
use raft_node::timer::election_timeout;

fn entry(term: u64, command: &str) -> LogEntry {
    LogEntry { term, command: command.to_string() }
}

fn vote_request(env: &Envelope) -> RequestVote {
    match &env.message {
        Message::RequestVoteRequest(r) => *r,
        _ => panic!("expected a vote request"),
    }
}

fn append_request(env: &Envelope) -> AppendEntries {
    match &env.message {
        Message::AppendEntriesRequest(r) => r.clone(),
        _ => panic!("expected an append request"),
    }
}

fn cluster_of_three() -> (RaftState, RaftState, RaftState) {
    (
        RaftState::new(1, vec![2, 3]),
        RaftState::new(2, vec![1, 3]),
        RaftState::new(3, vec![1, 2]),
    )
}

/// Makes `node` leader through an election in which `voter` grants its vote.
fn elect(node: &mut RaftState, voter: &mut RaftState) -> Vec<Envelope> {
    let out = node.on_election_timeout();
    let to_voter = out.iter().find(|e| e.to == voter.node_id).unwrap();
    let reply = voter.handle_request_vote(&vote_request(to_voter));
    assert!(reply.vote_granted);
    node.handle_vote_reply(voter.node_id, &reply)
}

#[test]
fn cluster_info_majorities() {
    assert_eq!(ClusterInfo::new(1, 50, vec![]).majority_number, 1);
    assert_eq!(ClusterInfo::new(3, 50, vec!["a:1".to_string(), "b:2".to_string()]).majority_number, 2);
    assert_eq!(ClusterInfo::new(4, 50, vec![]).majority_number, 2);
    assert_eq!(ClusterInfo::new(5, 50, vec![]).majority_number, 3);
    let c = ClusterInfo::new(3, 70, vec!["a:1".to_string()]);
    assert_eq!(c.node_number, 3);
    assert_eq!(c.heartbeat_interval, 70);
    assert_eq!(c.node_list, vec!["a:1".to_string()]);
}

#[test]
fn role_predicates() {
    assert!(Role::Follower.is_follower());
    assert!(!Role::Follower.is_candidate());
    assert!(Role::Candidate.is_candidate());
    assert!(!Role::Candidate.is_leader());
    assert!(Role::Leader.is_leader());
    assert!(!Role::Leader.is_follower());
}

#[test]
fn election_timeout_range() {
    assert_eq!(election_timeout(50, 0), 100);
    assert_eq!(election_timeout(50, 99), 199);
    assert_eq!(election_timeout(50, 100), 100);
    assert_eq!(election_timeout(50, 537), 137);
    for r in 0..1000u64 {
        let t = election_timeout(10, r * 7919);
        assert!((20..40).contains(&t));
    }
}

#[test]
fn helpers_find_and_count() {
    assert_eq!(find_index(&vec![4, 7, 9], 7), Some(1));
    assert_eq!(find_index(&vec![4, 7, 9], 5), None);
    assert_eq!(count_at_least_exec(&vec![0, 3, 5, 2], 3), 2);
    assert_eq!(count_at_least_exec(&vec![], 0), 0);
}

#[test]
fn new_node_is_follower_of_term_zero() {
    let s = RaftState::new(1, vec![2, 3]);
    assert_eq!(s.role, Role::Follower);
    assert_eq!(s.current_term, 0);
    assert_eq!(s.voted_for, None);
    assert!(s.log.is_empty());
    assert_eq!(s.commit_index, 0);
    assert_eq!(s.last_applied, 0);
    assert_eq!(s.majority, 2);
    assert!(s.on_heartbeat_tick().is_empty());
}

#[test]
fn first_election_of_three_nodes() {
    let (mut n1, mut n2, mut n3) = cluster_of_three();
    let out = n1.on_election_timeout();
    assert_eq!(n1.role, Role::Candidate);
    assert_eq!(n1.current_term, 1);
    assert_eq!(n1.voted_for, Some(1));
    assert_eq!(out.len(), 2);
    assert_eq!(out[0].to, 2);
    assert_eq!(out[1].to, 3);
    let req = vote_request(&out[0]);
    assert_eq!(req, RequestVote { term: 1, candidate_id: 1, last_log_index: 0, last_log_term: 0 });
    let r2 = n2.handle_request_vote(&req);
    let r3 = n3.handle_request_vote(&vote_request(&out[1]));
    assert_eq!(r2, VoteReply { term: 1, vote_granted: true });
    assert_eq!(r3, VoteReply { term: 1, vote_granted: true });
    assert_eq!(n2.voted_for, Some(1));
    assert_eq!(n2.current_term, 1);
    let beats = n1.handle_vote_reply(2, &r2);
    assert_eq!(n1.role, Role::Leader);
    assert_eq!(n1.next_index, vec![1, 1]);
    assert_eq!(n1.match_index, vec![0, 0]);
    assert_eq!(beats.len(), 2);
    let hb = append_request(&beats[1]);
    assert_eq!(beats[1].to, 3);
    assert_eq!((hb.term, hb.leader_id, hb.prev_log_index, hb.prev_log_term), (1, 1, 0, 0));
    assert!(hb.entries.is_empty());
    // the late vote changes nothing
    assert!(n1.handle_vote_reply(3, &r3).is_empty());
    assert_eq!(n1.role, Role::Leader);
}

#[test]
fn split_vote_retries_until_a_leader() {
    let (mut n1, mut n2, mut n3) = cluster_of_three();
    let mut last_term = 0;
    // both candidates start each round before seeing the other's request;
    // node 3's answers are lost for two rounds
    for round in 1..=2u64 {
        let o1 = n1.on_election_timeout();
        let o2 = n2.on_election_timeout();
        assert_eq!(n1.current_term, round);
        assert_eq!(n2.current_term, round);
        assert!(n1.current_term > last_term);
        last_term = n1.current_term;
        let r12 = n2.handle_request_vote(&vote_request(&o1[0]));
        let r21 = n1.handle_request_vote(&vote_request(&o2[0]));
        assert!(!r12.vote_granted);
        assert!(!r21.vote_granted);
        let _lost = n3.handle_request_vote(&vote_request(&o1[1]));
        assert!(n1.handle_vote_reply(2, &r12).is_empty());
        assert!(n2.handle_vote_reply(1, &r21).is_empty());
        assert_eq!(n1.role, Role::Candidate);
        assert_eq!(n2.role, Role::Candidate);
    }
    let o1 = n1.on_election_timeout();
    let _o2 = n2.on_election_timeout();
    assert_eq!(n1.current_term, 3);
    let r31 = n3.handle_request_vote(&vote_request(&o1[1]));
    assert!(r31.vote_granted);
    n1.handle_vote_reply(3, &r31);
    assert_eq!(n1.role, Role::Leader);
    assert_eq!(n2.role, Role::Candidate);
}

#[test]
fn follower_log_repair() {
    let mut f = RaftState::new(2, vec![1, 3]);
    let first = AppendEntries {
        term: 1,
        leader_id: 1,
        prev_log_index: 0,
        prev_log_term: 0,
        entries: vec![entry(1, "x")],
        leader_commit: 0,
    };
    let (r, rearm) = f.handle_append_entries(&first);
    assert!(rearm);
    assert_eq!(r, AppendReply { term: 1, success: true, matched_index: 1 });
    let req = AppendEntries {
        term: 2,
        leader_id: 1,
        prev_log_index: 1,
        prev_log_term: 1,
        entries: vec![entry(2, "y")],
        leader_commit: 0,
    };
    let (r, rearm) = f.handle_append_entries(&req);
    assert!(rearm);
    assert!(r.success);
    assert_eq!(r.matched_index, 2);
    assert_eq!(r.term, 2);
    assert_eq!(f.log.len(), 2);
    assert_eq!(f.log[0].command, "x");
    assert_eq!(f.log[1].term, 2);
    assert_eq!(f.log[1].command, "y");
}

#[test]
fn consistency_check_failure_backtracks() {
    let (mut n1, mut n2, mut n3) = cluster_of_three();
    // node 2 leads term 1 and gives node 1 two entries and node 3 one
    for (node, count) in [(&mut n1, 2usize), (&mut n3, 1usize)] {
        let req = AppendEntries {
            term: 1,
            leader_id: 2,
            prev_log_index: 0,
            prev_log_term: 0,
            entries: vec![entry(1, "a"), entry(1, "b")][..count].to_vec(),
            leader_commit: 0,
        };
        assert!(node.handle_append_entries(&req).0.success);
    }
    elect(&mut n1, &mut n2);
    assert_eq!(n1.role, Role::Leader);
    assert_eq!(n1.current_term, 2);
    assert_eq!(n1.next_index, vec![3, 3]);
    let beats = n1.on_heartbeat_tick();
    let to3 = append_request(&beats[1]);
    assert_eq!(to3.prev_log_index, 2);
    let (reply, _) = n3.handle_append_entries(&to3);
    assert!(!reply.success);
    assert_eq!(reply.matched_index, 0);
    assert_eq!(n3.log.len(), 1);
    n1.handle_append_reply(3, &reply);
    assert_eq!(n1.next_index, vec![3, 2]);
    let beats = n1.on_heartbeat_tick();
    let retry = append_request(&beats[1]);
    assert_eq!(retry.prev_log_index, 1);
    assert_eq!(retry.prev_log_term, 1);
    assert_eq!(retry.entries.len(), 1);
    let (reply, _) = n3.handle_append_entries(&retry);
    assert_eq!(reply, AppendReply { term: 2, success: true, matched_index: 2 });
    n1.handle_append_reply(3, &reply);
    assert_eq!(n1.match_index, vec![0, 2]);
    assert_eq!(n1.next_index, vec![3, 3]);
    // entries of an earlier term are not committed by counting replicas
    assert_eq!(n1.commit_index, 0);
}

#[test]
fn stale_leader_steps_down() {
    let (mut n1, mut n2, _n3) = cluster_of_three();
    elect(&mut n1, &mut n2);
    n1.on_election_timeout();
    assert_eq!(n1.role, Role::Leader);
    // a leader ignores its election timer; get it to term 2 another way
    let mut l = RaftState::new(1, vec![2, 3]);
    l.on_election_timeout();
    l.on_election_timeout();
    assert_eq!(l.current_term, 2);
    let mut v = RaftState::new(2, vec![1, 3]);
    let r = v.handle_request_vote(&RequestVote { term: 2, candidate_id: 1, last_log_index: 0, last_log_term: 0 });
    l.handle_vote_reply(2, &r);
    assert_eq!(l.role, Role::Leader);
    assert_eq!(l.voted_for, Some(1));
    l.handle_append_reply(3, &AppendReply { term: 3, success: false, matched_index: 0 });
    assert_eq!(l.role, Role::Follower);
    assert_eq!(l.current_term, 3);
    assert_eq!(l.voted_for, None);
    assert!(l.next_index.is_empty());
    assert!(l.match_index.is_empty());
    assert!(l.on_heartbeat_tick().is_empty());
}

#[test]
fn commit_needs_quorum_and_current_term() {
    let (mut n1, mut n2, _n3) = cluster_of_three();
    elect(&mut n1, &mut n2);
    assert_eq!(n1.propose("set a".to_string()), Ok(1));
    assert_eq!(n1.commit_index, 0);
    n1.handle_append_reply(2, &AppendReply { term: 1, success: true, matched_index: 1 });
    assert_eq!(n1.commit_index, 1);
    assert_eq!(n1.match_index, vec![1, 0]);
    assert_eq!(n1.next_index, vec![2, 1]);
    // an acknowledgement beyond the log is ignored
    n1.handle_append_reply(3, &AppendReply { term: 1, success: true, matched_index: 9 });
    assert_eq!(n1.match_index, vec![1, 0]);
    let e = n1.apply_next().unwrap();
    assert_eq!((e.term, e.command.as_str()), (1, "set a"));
    assert_eq!(n1.last_applied, 1);
    assert!(n1.apply_next().is_none());
}

#[test]
fn lone_node_leads_and_commits_alone() {
    let mut n = RaftState::new(7, vec![]);
    assert_eq!(n.majority, 1);
    assert!(n.on_election_timeout().is_empty());
    assert_eq!(n.role, Role::Leader);
    assert_eq!(n.current_term, 1);
    assert_eq!(n.propose("x".to_string()), Ok(1));
    assert_eq!(n.commit_index, 1);
}

#[test]
fn propose_refused_off_leader() {
    let mut n = RaftState::new(1, vec![2, 3]);
    assert_eq!(n.propose("x".to_string()), Err(ProposeError::NotLeader));
    n.on_election_timeout();
    assert_eq!(n.propose("x".to_string()), Err(ProposeError::NotLeader));
    assert!(n.log.is_empty());
}

#[test]
fn one_vote_per_term_and_up_to_date_check() {
    let mut v = RaftState::new(3, vec![1, 2]);
    let a = RequestVote { term: 1, candidate_id: 1, last_log_index: 0, last_log_term: 0 };
    let b = RequestVote { term: 1, candidate_id: 2, last_log_index: 0, last_log_term: 0 };
    assert!(v.handle_request_vote(&a).vote_granted);
    assert!(!v.handle_request_vote(&b).vote_granted);
    // a repeated request from the same candidate is granted again
    assert!(v.handle_request_vote(&a).vote_granted);
    assert_eq!(v.voted_for, Some(1));
    // a stale term is refused, with the voter's term in the reply
    let old = RequestVote { term: 0, candidate_id: 2, last_log_index: 5, last_log_term: 0 };
    assert_eq!(v.handle_request_vote(&old), VoteReply { term: 1, vote_granted: false });
    // a log that is behind is refused even in a fresh term
    let mut w = RaftState::new(3, vec![1, 2]);
    let req = AppendEntries {
        term: 2,
        leader_id: 1,
        prev_log_index: 0,
        prev_log_term: 0,
        entries: vec![entry(2, "a"), entry(2, "b")],
        leader_commit: 0,
    };
    assert!(w.handle_append_entries(&req).0.success);
    let behind = RequestVote { term: 3, candidate_id: 2, last_log_index: 1, last_log_term: 2 };
    assert_eq!(w.handle_request_vote(&behind), VoteReply { term: 3, vote_granted: false });
    assert_eq!(w.voted_for, None);
    let older_term = RequestVote { term: 4, candidate_id: 2, last_log_index: 9, last_log_term: 1 };
    assert!(!w.handle_request_vote(&older_term).vote_granted);
    let even = RequestVote { term: 4, candidate_id: 2, last_log_index: 2, last_log_term: 2 };
    assert!(w.handle_request_vote(&even).vote_granted);
}

#[test]
fn two_candidates_cannot_both_win_a_term() {
    let (mut n1, mut n2, mut n3) = cluster_of_three();
    let o1 = n1.on_election_timeout();
    let o2 = n2.on_election_timeout();
    let r3a = n3.handle_request_vote(&vote_request(&o1[1]));
    let r3b = n3.handle_request_vote(&vote_request(&o2[1]));
    assert!(r3a.vote_granted);
    assert!(!r3b.vote_granted);
    n1.handle_vote_reply(3, &r3a);
    n2.handle_vote_reply(3, &r3b);
    let r12 = n2.handle_request_vote(&vote_request(&o1[0]));
    n1.handle_vote_reply(2, &r12);
    assert_eq!(n1.role, Role::Leader);
    assert_eq!(n2.role, Role::Candidate);
}

#[test]
fn append_entries_rules() {
    let mut f = RaftState::new(2, vec![1, 3]);
    f.current_term = 3;
    let stale = AppendEntries {
        term: 2,
        leader_id: 1,
        prev_log_index: 0,
        prev_log_term: 0,
        entries: vec![entry(2, "a")],
        leader_commit: 0,
    };
    let (r, rearm) = f.handle_append_entries(&stale);
    assert_eq!(r, AppendReply { term: 3, success: false, matched_index: 0 });
    assert!(!rearm);
    assert!(f.log.is_empty());
    let req = AppendEntries {
        term: 3,
        leader_id: 1,
        prev_log_index: 0,
        prev_log_term: 0,
        entries: vec![entry(3, "a"), entry(3, "b"), entry(3, "c")],
        leader_commit: 2,
    };
    assert_eq!(f.handle_append_entries(&req).0, AppendReply { term: 3, success: true, matched_index: 3 });
    assert_eq!(f.commit_index, 2);
    // a delayed, shorter copy keeps the longer log
    let short = AppendEntries { entries: vec![entry(3, "a")], leader_commit: 1, ..req.clone() };
    assert_eq!(f.handle_append_entries(&short).0.matched_index, 1);
    assert_eq!(f.log.len(), 3);
    assert_eq!(f.commit_index, 2);
    // a new leader replaces the uncommitted tail
    let repl = AppendEntries {
        term: 4,
        leader_id: 3,
        prev_log_index: 2,
        prev_log_term: 3,
        entries: vec![entry(4, "z")],
        leader_commit: 9,
    };
    assert!(f.handle_append_entries(&repl).0.success);
    assert_eq!(f.log.len(), 3);
    assert_eq!(f.log[2].command, "z");
    assert_eq!(f.commit_index, 3);
    // overwriting a committed entry is refused
    let bad = AppendEntries {
        term: 5,
        leader_id: 3,
        prev_log_index: 0,
        prev_log_term: 0,
        entries: vec![entry(5, "q")],
        leader_commit: 0,
    };
    assert!(!f.handle_append_entries(&bad).0.success);
    assert_eq!(f.log.len(), 3);
    assert_eq!(f.current_term, 5);
}

#[test]
fn candidate_yields_to_leader_of_its_term() {
    let mut c = RaftState::new(2, vec![1, 3]);
    c.on_election_timeout();
    assert_eq!(c.role, Role::Candidate);
    let hb = AppendEntries {
        term: 1,
        leader_id: 1,
        prev_log_index: 0,
        prev_log_term: 0,
        entries: vec![],
        leader_commit: 0,
    };
    let (r, rearm) = c.handle_append_entries(&hb);
    assert!(r.success && rearm);
    assert_eq!(c.role, Role::Follower);
    assert_eq!(c.voted_for, Some(2));
    assert!(c.votes_granted.is_empty());
}
