use vstd::prelude::*;

verus! {

/// One slot of the replicated log: the term in which a leader created it and
/// the client's command, opaque to the consensus layer.
#[derive(Clone, Debug)]
pub struct LogEntry {
    pub term: u64,
    pub command: String,
}

impl LogEntry {
    /// A copy of the entry, equal to it.
    pub fn duplicate(&self) -> (r: LogEntry)
        ensures
            r == *self,
    {
        LogEntry { term: self.term, command: self.command.clone() }
    }
}

/// A candidate's request for a vote.
#[derive(Clone, Copy, Debug, PartialEq, Eq, Structural)]
pub struct RequestVote {
    pub term: u64,
    pub candidate_id: u64,
    pub last_log_index: u64,
    pub last_log_term: u64,
}

/// A voter's answer to `RequestVote`.
#[derive(Clone, Copy, Debug, PartialEq, Eq, Structural)]
pub struct VoteReply {
    pub term: u64,
    pub vote_granted: bool,
}

/// A leader's request to replicate entries (a heartbeat when `entries` is empty).
#[derive(Clone, Debug)]
pub struct AppendEntries {
    pub term: u64,
    pub leader_id: u64,
    pub prev_log_index: u64,
    pub prev_log_term: u64,
    pub entries: Vec<LogEntry>,
    pub leader_commit: u64,
}

/// A follower's answer to `AppendEntries`.
#[derive(Clone, Copy, Debug, PartialEq, Eq, Structural)]
pub struct AppendReply {
    pub term: u64,
    pub success: bool,
    pub matched_index: u64,
}

/// The four messages that nodes exchange.
#[derive(Clone, Debug)]
pub enum Message {
    RequestVoteRequest(RequestVote),
    RequestVoteResponse(VoteReply),
    AppendEntriesRequest(AppendEntries),
    AppendEntriesResponse(AppendReply),
}

/// A message addressed to a peer.
#[derive(Clone, Debug)]
pub struct Envelope {
    pub to: u64,
    pub message: Message,
}

} // verus!
