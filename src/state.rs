use vstd::prelude::*;
use crate::cluster::majority_of;
use crate::message::{
    AppendEntries, AppendReply, Envelope, LogEntry, Message, RequestVote, VoteReply,
};
use crate::role::Role;
use vstd::math::{max, min};

verus! {

/// The term of the entry at 1-based `index`; index 0 stands for "no entry" and has term 0.
pub open spec fn term_at(log: Seq<LogEntry>, index: int) -> int {
    if 1 <= index <= log.len() {
        log[index - 1].term as int
    } else {
        0
    }
}

/// The term of the last entry of `log`, 0 when it is empty.
pub open spec fn last_term(log: Seq<LogEntry>) -> int {
    term_at(log, log.len() as int)
}

/// A log ending in `(cand_term, cand_index)` is at least as up to date as one
/// ending in `(my_term, my_index)`: compared by term, then by length.
pub open spec fn up_to_date(cand_term: int, cand_index: int, my_term: int, my_index: int) -> bool {
    cand_term > my_term || (cand_term == my_term && cand_index >= my_index)
}

/// `log` after taking in `entries` from 0-based position `pos` on: entries
/// that agree in term with the log are kept as they are; at the first that
/// disagrees, or runs past the end, the log is cut there and the rest appended.
pub open spec fn merge(log: Seq<LogEntry>, pos: int, entries: Seq<LogEntry>) -> Seq<LogEntry>
    decreases entries.len(),
{
    if entries.len() == 0 {
        log
    } else if 0 <= pos < log.len() && log[pos].term == entries[0].term {
        merge(log, pos + 1, entries.drop_first())
    } else {
        log.take(pos) + entries
    }
}

/// Whether `merge(log, pos, entries)` cuts the log at a position below `bound`.
pub open spec fn cuts_below(log: Seq<LogEntry>, pos: int, entries: Seq<LogEntry>, bound: int) -> bool
    decreases entries.len(),
{
    if entries.len() == 0 {
        false
    } else if 0 <= pos < log.len() && log[pos].term == entries[0].term {
        cuts_below(log, pos + 1, entries.drop_first(), bound)
    } else {
        pos < bound
    }
}

/// How many of the values in `s` are at least `n`.
pub open spec fn count_at_least(s: Seq<u64>, n: int) -> nat
    decreases s.len(),
{
    if s.len() == 0 {
        0
    } else {
        count_at_least(s.drop_last(), n) + if s.last() >= n {
            1nat
        } else {
            0nat
        }
    }
}

/// There are no more values at least `n` in `s` than values in `s`.
proof fn lemma_count_bound(s: Seq<u64>, n: int)
    ensures
        count_at_least(s, n) <= s.len(),
    decreases s.len(),
{
    if s.len() > 0 {
        lemma_count_bound(s.drop_last(), n);
    }
}

/// Counts the values in `v` that are at least `n`.
pub fn count_at_least_exec(v: &Vec<u64>, n: u64) -> (r: u64)
    ensures
        r == count_at_least(v@, n as int),
{
    let mut r: u64 = 0;
    let mut i: usize = 0;
    while i < v.len()
        invariant
            i <= v.len(),
            r == count_at_least(v@.take(i as int), n as int),
            r <= i,
        decreases v.len() - i,
    {
        proof {
            assert(v@.take(i + 1).drop_last() =~= v@.take(i as int));
        }
        if v[i] >= n {
            r = r + 1;
        }
        i = i + 1;
    }
    proof {
        assert(v@.take(i as int) =~= v@);
    }
    r
}

/// Why a command was not taken into the log.
#[derive(PartialEq, Eq, Structural, Copy, Clone, Debug)]
pub enum ProposeError {
    /// Only a leader takes commands; the caller should try another node.
    NotLeader,
    /// The log has reached the largest length its indices can express.
    LogFull,
}

/// The position of `x` in `v`, if it occurs there.
pub fn find_index(v: &Vec<u64>, x: u64) -> (r: Option<usize>)
    ensures
        r matches Some(i) ==> i < v.len() && v@[i as int] == x,
        r is None ==> !v@.contains(x),
{
    let mut i: usize = 0;
    while i < v.len()
        invariant
            i <= v.len(),
            forall|j: int| 0 <= j < i ==> v@[j] != x,
        decreases v.len() - i,
    {
        if v[i] == x {
            return Some(i);
        }
        i = i + 1;
    }
    None
}

/// The state of one node of the cluster, owned by its control loop.
pub struct RaftState {
    pub node_id: u64,
    /// The other nodes of the cluster.
    pub peers: Vec<u64>,
    /// How many nodes, this one included, make a quorum.
    pub majority: u64,
    pub role: Role,
    pub current_term: u64,
    pub voted_for: Option<u64>,
    pub log: Vec<LogEntry>,
    pub commit_index: u64,
    pub last_applied: u64,
    /// Peers that granted this candidate their vote in the current term.
    pub votes_granted: Vec<u64>,
    /// Leader only, one per peer: the index of the next entry to send.
    pub next_index: Vec<u64>,
    /// Leader only, one per peer: the highest index known replicated there.
    pub match_index: Vec<u64>,
}

impl RaftState {
    /// The invariant of the state.
    pub open spec fn wf(&self) -> bool {
        &&& self.peers@.no_duplicates()
        &&& !self.peers@.contains(self.node_id)
        &&& self.peers.len() + 1 <= u64::MAX
        &&& self.majority == majority_of(self.peers.len() + 1)
        &&& self.log.len() < u64::MAX
        &&& self.commit_index <= self.log.len()
        &&& self.last_applied <= self.commit_index
        &&& self.votes_granted@.no_duplicates()
        &&& forall|i: int| 0 <= i < self.votes_granted.len()
            ==> self.peers@.contains(#[trigger] self.votes_granted@[i])
        &&& self.role != Role::Candidate ==> self.votes_granted.len() == 0
        &&& self.role != Role::Follower ==> self.voted_for == Some(self.node_id)
        &&& if self.role == Role::Leader {
            &&& self.next_index.len() == self.peers.len()
            &&& self.match_index.len() == self.peers.len()
            &&& forall|i: int| 0 <= i < self.peers.len()
                ==> 1 <= #[trigger] self.next_index@[i] <= self.log.len() + 1
            &&& forall|i: int| 0 <= i < self.peers.len()
                ==> #[trigger] self.match_index@[i] <= self.log.len()
        } else {
            &&& self.next_index.len() == 0
            &&& self.match_index.len() == 0
        }
    }

    /// The same node, with the same log and commit progress.
    pub open spec fn same_node_and_log(&self, other: &RaftState) -> bool {
        &&& self.node_id == other.node_id
        &&& self.peers@ == other.peers@
        &&& self.majority == other.majority
        &&& self.log@ == other.log@
        &&& self.commit_index == other.commit_index
        &&& self.last_applied == other.last_applied
    }

    /// Equal to `other` in every field but the log.
    pub open spec fn same_but_log(&self, other: &RaftState) -> bool {
        &&& self.node_id == other.node_id
        &&& self.peers == other.peers
        &&& self.majority == other.majority
        &&& self.role == other.role
        &&& self.current_term == other.current_term
        &&& self.voted_for == other.voted_for
        &&& self.commit_index == other.commit_index
        &&& self.last_applied == other.last_applied
        &&& self.votes_granted == other.votes_granted
        &&& self.next_index == other.next_index
        &&& self.match_index == other.match_index
    }

    /// From `self` to `next` the term does not fall, and a vote cast in a
    /// term stays as it is while that term lasts.
    pub open spec fn keeps_votes(&self, next: &RaftState) -> bool {
        &&& next.current_term >= self.current_term
        &&& (next.current_term == self.current_term && self.voted_for is Some)
            ==> next.voted_for == self.voted_for
    }

    /// From `self` to `next` the commit index does not fall.
    pub open spec fn keeps_commit(&self, next: &RaftState) -> bool {
        next.commit_index >= self.commit_index
    }

    /// `self` is a follower of term `term` that has not voted in it.
    pub open spec fn fresh_follower(&self, term: u64) -> bool {
        &&& self.role == Role::Follower
        &&& self.current_term == term
        &&& self.voted_for is None
        &&& self.votes_granted.len() == 0
        &&& self.next_index.len() == 0
        &&& self.match_index.len() == 0
    }

    /// The vote request that a candidate in state `self` sends to every peer.
    pub open spec fn vote_request(&self) -> RequestVote {
        RequestVote {
            term: self.current_term,
            candidate_id: self.node_id,
            last_log_index: self.log.len() as u64,
            last_log_term: last_term(self.log@) as u64,
        }
    }

    /// `env` is the AppendEntries request that leader `self` sends to its `i`-th peer:
    /// everything from that peer's next index on.
    pub open spec fn is_append_for(&self, i: int, env: Envelope) -> bool {
        let prev = self.next_index@[i] - 1;
        &&& env.to == self.peers@[i]
        &&& env.message matches Message::AppendEntriesRequest(r) && {
            &&& r.term == self.current_term
            &&& r.leader_id == self.node_id
            &&& r.prev_log_index == prev
            &&& r.prev_log_term == term_at(self.log@, prev)
            &&& r.entries@ == self.log@.subrange(prev, self.log.len() as int)
            &&& r.leader_commit == self.commit_index
        }
    }

    /// A node's state at start-up: a follower of term 0 with an empty log.
    pub fn new(node_id: u64, peers: Vec<u64>) -> (r: RaftState)
        requires
            peers@.no_duplicates(),
            !peers@.contains(node_id),
            peers.len() + 1 <= u64::MAX,
        ensures
            r.wf(),
            r.node_id == node_id,
            r.peers@ == peers@,
            r.fresh_follower(0),
            r.log@.len() == 0,
            r.commit_index == 0,
            r.last_applied == 0,
    {
        let n: u64 = peers.len() as u64;
        RaftState {
            node_id,
            peers,
            majority: n / 2 + 1,
            role: Role::Follower,
            current_term: 0,
            voted_for: None,
            log: Vec::new(),
            commit_index: 0,
            last_applied: 0,
            votes_granted: Vec::new(),
            next_index: Vec::new(),
            match_index: Vec::new(),
        }
    }

    /// The index and term of the last entry of the log.
    pub fn last_log(&self) -> (r: (u64, u64))
        requires
            self.wf(),
        ensures
            r.0 == self.log.len(),
            r.1 == last_term(self.log@),
    {
        let n: usize = self.log.len();
        if n == 0 {
            (0, 0)
        } else {
            (n as u64, self.log[n - 1].term)
        }
    }

    /// The term of the entry at 1-based `index`, 0 for index 0.
    fn term_of(&self, index: u64) -> (r: u64)
        requires
            index <= self.log.len(),
        ensures
            r == term_at(self.log@, index as int),
    {
        if index == 0 {
            0
        } else {
            self.log[(index - 1) as usize].term
        }
    }

    /// Adopts a higher term seen in a message: a follower that has not voted in it.
    fn step_down(&mut self, term: u64)
        requires
            old(self).wf(),
            term > old(self).current_term,
        ensures
            final(self).wf(),
            final(self).same_node_and_log(old(self)),
            final(self).fresh_follower(term),
    {
        self.current_term = term;
        self.voted_for = None;
        self.role = Role::Follower;
        self.votes_granted = Vec::new();
        self.next_index = Vec::new();
        self.match_index = Vec::new();
    }

    /// The AppendEntries requests of a leader to all its peers.
    pub fn heartbeats(&self) -> (out: Vec<Envelope>)
        requires
            self.wf(),
            self.role == Role::Leader,
        ensures
            out.len() == self.peers.len(),
            forall|i: int| 0 <= i < out.len() ==> self.is_append_for(i, #[trigger] out@[i]),
    {
        let mut out: Vec<Envelope> = Vec::new();
        let mut i: usize = 0;
        while i < self.peers.len()
            invariant
                self.wf(),
                self.role == Role::Leader,
                i <= self.peers.len(),
                out.len() == i,
                forall|j: int| 0 <= j < i ==> self.is_append_for(j, #[trigger] out@[j]),
            decreases self.peers.len() - i,
        {
            let prev: u64 = self.next_index[i] - 1;
            let mut entries: Vec<LogEntry> = Vec::new();
            let mut k: usize = prev as usize;
            while k < self.log.len()
                invariant
                    prev <= k <= self.log.len(),
                    entries@ == self.log@.subrange(prev as int, k as int),
                decreases self.log.len() - k,
            {
                entries.push(self.log[k].duplicate());
                proof {
                    assert(entries@ =~= self.log@.subrange(prev as int, k + 1));
                }
                k = k + 1;
            }
            let request = AppendEntries {
                term: self.current_term,
                leader_id: self.node_id,
                prev_log_index: prev,
                prev_log_term: self.term_of(prev),
                entries,
                leader_commit: self.commit_index,
            };
            out.push(Envelope { to: self.peers[i], message: Message::AppendEntriesRequest(request) });
            i = i + 1;
        }
        out
    }
    /// Takes up leadership: every peer's next index is just past the log, no
    /// entry is known replicated, and the first heartbeats go out at once.
    fn become_leader(&mut self) -> (out: Vec<Envelope>)
        requires
            old(self).wf(),
            old(self).voted_for == Some(old(self).node_id),
        ensures
            final(self).wf(),
            final(self).same_node_and_log(old(self)),
            final(self).role == Role::Leader,
            final(self).current_term == old(self).current_term,
            final(self).voted_for == old(self).voted_for,
            forall|i: int| 0 <= i < final(self).peers.len()
                ==> #[trigger] final(self).next_index@[i] == final(self).log.len() + 1
                    && final(self).match_index@[i] == 0,
            out.len() == final(self).peers.len(),
            forall|i: int| 0 <= i < out.len() ==> final(self).is_append_for(i, #[trigger] out@[i]),
    {
        let next: u64 = self.log.len() as u64 + 1;
        let mut next_index: Vec<u64> = Vec::new();
        let mut match_index: Vec<u64> = Vec::new();
        let mut i: usize = 0;
        while i < self.peers.len()
            invariant
                self.wf(),
                self.voted_for == Some(self.node_id),
                i <= self.peers.len(),
                next == self.log.len() + 1,
                next_index.len() == i,
                match_index.len() == i,
                forall|j: int| 0 <= j < i ==> #[trigger] next_index@[j] == next,
                forall|j: int| 0 <= j < i ==> #[trigger] match_index@[j] == 0,
            decreases self.peers.len() - i,
        {
            next_index.push(next);
            match_index.push(0);
            i = i + 1;
        }
        self.role = Role::Leader;
        self.votes_granted = Vec::new();
        self.next_index = next_index;
        self.match_index = match_index;
        self.heartbeats()
    }

    /// The election timer fired. A follower or candidate starts an election in
    /// the next term: it votes for itself and asks every peer for its vote; a
    /// node that is a quorum by itself leads at once. A leader ignores the
    /// timer, and so does a node whose term cannot grow any more.
    pub fn on_election_timeout(&mut self) -> (out: Vec<Envelope>)
        requires
            old(self).wf(),
        ensures
            final(self).wf(),
            old(self).keeps_votes(final(self)),
            old(self).keeps_commit(final(self)),
            final(self).same_node_and_log(old(self)),
            old(self).role == Role::Leader || old(self).current_term == u64::MAX ==> {
                &&& *final(self) == *old(self)
                &&& out.len() == 0
            },
            old(self).role != Role::Leader && old(self).current_term < u64::MAX ==> {
                &&& final(self).current_term == old(self).current_term + 1
                &&& final(self).voted_for == Some(final(self).node_id)
                &&& if final(self).majority <= 1 {
                    &&& final(self).role == Role::Leader
                    &&& out.len() == final(self).peers.len()
                    &&& forall|i: int| 0 <= i < out.len()
                        ==> final(self).is_append_for(i, #[trigger] out@[i])
                } else {
                    &&& final(self).role == Role::Candidate
                    &&& final(self).votes_granted.len() == 0
                    &&& out.len() == final(self).peers.len()
                    &&& forall|i: int| 0 <= i < out.len()
                        ==> (#[trigger] out@[i]).to == final(self).peers@[i]
                            && out@[i].message == Message::RequestVoteRequest(final(self).vote_request())
                }
            },
    {
        if self.role == Role::Leader || self.current_term == u64::MAX {
            return Vec::new();
        }
        self.current_term = self.current_term + 1;
        self.voted_for = Some(self.node_id);
        self.role = Role::Candidate;
        self.votes_granted = Vec::new();
        self.next_index = Vec::new();
        self.match_index = Vec::new();
        if self.majority <= 1 {
            return self.become_leader();
        }
        let (last_log_index, last_log_term) = self.last_log();
        let request = RequestVote {
            term: self.current_term,
            candidate_id: self.node_id,
            last_log_index,
            last_log_term,
        };
        let mut out: Vec<Envelope> = Vec::new();
        let mut i: usize = 0;
        while i < self.peers.len()
            invariant
                self.wf(),
                i <= self.peers.len(),
                request == self.vote_request(),
                out.len() == i,
                forall|j: int| 0 <= j < i ==> (#[trigger] out@[j]).to == self.peers@[j]
                    && out@[j].message == Message::RequestVoteRequest(request),
            decreases self.peers.len() - i,
        {
            out.push(Envelope { to: self.peers[i], message: Message::RequestVoteRequest(request) });
            i = i + 1;
        }
        out
    }

    /// The heartbeat tick: a leader sends every peer what it lacks (nothing
    /// but the leader's progress when it lacks nothing); other roles send nothing.
    pub fn on_heartbeat_tick(&self) -> (out: Vec<Envelope>)
        requires
            self.wf(),
        ensures
            self.role != Role::Leader ==> out.len() == 0,
            self.role == Role::Leader ==> {
                &&& out.len() == self.peers.len()
                &&& forall|i: int| 0 <= i < out.len() ==> self.is_append_for(i, #[trigger] out@[i])
            },
    {
        if self.role == Role::Leader {
            self.heartbeats()
        } else {
            Vec::new()
        }
    }
    /// Whether this node grants `req` its vote: the request is not from an
    /// older term, the node has not voted for anyone else in the request's
    /// term, and the candidate's log is at least as up to date as its own.
    pub open spec fn grants_vote(&self, req: RequestVote) -> bool {
        &&& req.term >= self.current_term
        &&& (req.term > self.current_term || self.voted_for is None
            || self.voted_for == Some(req.candidate_id))
        &&& up_to_date(
            req.last_log_term as int,
            req.last_log_index as int,
            last_term(self.log@),
            self.log.len() as int,
        )
    }

    /// Answers a candidate's vote request. A higher term is adopted first; a
    /// granted vote is recorded. The reply carries the (possibly new) term; the
    /// caller re-arms the election timer when the vote is granted.
    pub fn handle_request_vote(&mut self, req: &RequestVote) -> (reply: VoteReply)
        requires
            old(self).wf(),
        ensures
            final(self).wf(),
            old(self).keeps_votes(final(self)),
            old(self).keeps_commit(final(self)),
            final(self).same_node_and_log(old(self)),
            reply.term == final(self).current_term,
            reply.vote_granted == old(self).grants_vote(*req),
            req.term > old(self).current_term ==> {
                &&& final(self).role == Role::Follower
                &&& final(self).current_term == req.term
                &&& final(self).votes_granted.len() == 0
                &&& final(self).next_index.len() == 0
                &&& final(self).match_index.len() == 0
            },
            req.term <= old(self).current_term ==> {
                &&& final(self).role == old(self).role
                &&& final(self).current_term == old(self).current_term
                &&& final(self).votes_granted@ == old(self).votes_granted@
                &&& final(self).next_index@ == old(self).next_index@
                &&& final(self).match_index@ == old(self).match_index@
            },
            reply.vote_granted ==> final(self).voted_for == Some(req.candidate_id),
            !reply.vote_granted ==> final(self).voted_for == if req.term > old(self).current_term {
                None
            } else {
                old(self).voted_for
            },
    {
        let grant = self.decide_vote(req);
        if req.term > self.current_term {
            self.step_down(req.term);
        }
        if grant {
            self.voted_for = Some(req.candidate_id);
        }
        VoteReply { term: self.current_term, vote_granted: grant }
    }

    /// Computes `grants_vote` for the current state.
    fn decide_vote(&self, req: &RequestVote) -> (r: bool)
        requires
            self.wf(),
        ensures
            r == self.grants_vote(*req),
    {
        let (last_index, last_term) = self.last_log();
        let free = req.term > self.current_term || self.voted_for.is_none()
            || self.voted_for == Some(req.candidate_id);
        let current = req.last_log_term > last_term
            || (req.last_log_term == last_term && req.last_log_index >= last_index);
        req.term >= self.current_term && free && current
    }

    /// Whether a vote reply from `from` adds a new vote to this candidate's tally.
    pub open spec fn counts_vote(&self, from: u64, reply: VoteReply) -> bool {
        &&& self.role == Role::Candidate
        &&& reply.term == self.current_term
        &&& reply.vote_granted
        &&& self.peers@.contains(from)
        &&& !self.votes_granted@.contains(from)
    }

    /// Takes in a peer's answer to this node's vote request. A higher term
    /// makes the node a follower of it. A new vote for this candidate is
    /// tallied; with the node's own vote it may reach a quorum, and the node
    /// then leads and sends its first heartbeats. Anything else changes nothing.
    pub fn handle_vote_reply(&mut self, from: u64, reply: &VoteReply) -> (out: Vec<Envelope>)
        requires
            old(self).wf(),
        ensures
            final(self).wf(),
            old(self).keeps_votes(final(self)),
            old(self).keeps_commit(final(self)),
            final(self).same_node_and_log(old(self)),
            reply.term > old(self).current_term ==> {
                &&& final(self).fresh_follower(reply.term)
                &&& out.len() == 0
            },
            reply.term <= old(self).current_term && !old(self).counts_vote(from, *reply) ==> {
                &&& *final(self) == *old(self)
                &&& out.len() == 0
            },
            old(self).counts_vote(from, *reply) ==> {
                &&& final(self).current_term == old(self).current_term
                &&& final(self).voted_for == old(self).voted_for
                &&& if old(self).votes_granted.len() + 2 >= old(self).majority {
                    &&& final(self).role == Role::Leader
                    &&& forall|i: int| 0 <= i < final(self).peers.len()
                        ==> #[trigger] final(self).next_index@[i] == final(self).log.len() + 1
                            && final(self).match_index@[i] == 0
                    &&& out.len() == final(self).peers.len()
                    &&& forall|i: int| 0 <= i < out.len()
                        ==> final(self).is_append_for(i, #[trigger] out@[i])
                } else {
                    &&& final(self).role == Role::Candidate
                    &&& final(self).votes_granted@ == old(self).votes_granted@.push(from)
                    &&& out.len() == 0
                }
            },
    {
        if reply.term > self.current_term {
            self.step_down(reply.term);
            return Vec::new();
        }
        if !(self.role == Role::Candidate && reply.term == self.current_term && reply.vote_granted) {
            return Vec::new();
        }
        if find_index(&self.peers, from).is_none() || find_index(&self.votes_granted, from).is_some() {
            return Vec::new();
        }
        if self.majority <= 2 || self.votes_granted.len() as u64 >= self.majority - 2 {
            return self.become_leader();
        }
        self.votes_granted.push(from);
        Vec::new()
    }
    /// Whether this node, in the role and term it holds after adopting the
    /// request's term, accepts `req`: the sender is a leader of a term at
    /// least its own (and not its own term while this node leads), the log
    /// holds an entry at `prev_log_index` with term `prev_log_term`, taking
    /// the entries in overwrites no committed entry, and the log's length
    /// stays below `u64::MAX`.
    pub open spec fn accepts_append(&self, req: AppendEntries) -> bool {
        &&& req.term >= self.current_term
        &&& !(req.term == self.current_term && self.role == Role::Leader)
        &&& req.prev_log_index <= self.log.len()
        &&& term_at(self.log@, req.prev_log_index as int) == req.prev_log_term
        &&& !cuts_below(self.log@, req.prev_log_index as int, req.entries@, self.commit_index as int)
        &&& req.prev_log_index + req.entries.len() < u64::MAX
    }

    /// Whether `req` comes from a current leader, which re-arms the election timer.
    pub open spec fn heeds_leader(&self, req: AppendEntries) -> bool {
        &&& req.term >= self.current_term
        &&& !(req.term == self.current_term && self.role == Role::Leader)
    }

    /// Answers a leader's AppendEntries request; `r.1` says whether the
    /// election timer is to be re-armed. A request of an older term is refused.
    /// Otherwise a higher term is adopted and a candidate gives way to the
    /// leader; if the log matches the leader's at `prev_log_index`, the entries
    /// are merged in (conflicting uncommitted entries are replaced), the commit
    /// index rises to `min(leader_commit, log length)` if that is higher, and
    /// the reply acknowledges the log up to the last entry sent.
    pub fn handle_append_entries(&mut self, req: &AppendEntries) -> (r: (AppendReply, bool))
        requires
            old(self).wf(),
        ensures
            final(self).wf(),
            old(self).keeps_votes(final(self)),
            old(self).keeps_commit(final(self)),
            final(self).node_id == old(self).node_id,
            final(self).peers@ == old(self).peers@,
            final(self).majority == old(self).majority,
            final(self).last_applied == old(self).last_applied,
            r.0.term == final(self).current_term,
            r.1 == old(self).heeds_leader(*req),
            !old(self).heeds_leader(*req) ==> *final(self) == *old(self) && !r.0.success
                && r.0.matched_index == 0,
            old(self).heeds_leader(*req) ==> {
                &&& final(self).role == Role::Follower
                &&& final(self).current_term == req.term
                &&& final(self).voted_for == if req.term > old(self).current_term {
                    None
                } else {
                    old(self).voted_for
                }
                &&& final(self).votes_granted.len() == 0
                &&& final(self).next_index.len() == 0
                &&& final(self).match_index.len() == 0
            },
            r.0.success == old(self).accepts_append(*req),
            !r.0.success ==> {
                &&& final(self).log@ == old(self).log@
                &&& final(self).commit_index == old(self).commit_index
                &&& r.0.matched_index == 0
            },
            r.0.success ==> {
                let merged = merge(old(self).log@, req.prev_log_index as int, req.entries@);
                &&& final(self).log@ == merged
                &&& r.0.matched_index == req.prev_log_index + req.entries.len()
                &&& final(self).commit_index == max(
                    old(self).commit_index as int,
                    min(req.leader_commit as int, merged.len() as int),
                )
            },
            final(self).commit_index >= old(self).commit_index,
    {
        if req.term < self.current_term {
            return (AppendReply { term: self.current_term, success: false, matched_index: 0 }, false);
        }
        if req.term == self.current_term && self.role == Role::Leader {
            return (AppendReply { term: self.current_term, success: false, matched_index: 0 }, false);
        }
        if req.term > self.current_term {
            self.step_down(req.term);
        }
        self.role = Role::Follower;
        self.votes_granted = Vec::new();
        let refused = AppendReply { term: self.current_term, success: false, matched_index: 0 };
        if req.prev_log_index > self.log.len() as u64 || self.term_of(req.prev_log_index)
            != req.prev_log_term {
            return (refused, true);
        }
        let prev: usize = req.prev_log_index as usize;
        let n: usize = req.entries.len();
        if n as u64 >= u64::MAX - req.prev_log_index {
            return (refused, true);
        }
        let ghost log0 = self.log@;
        let ghost s0 = *self;
        let ghost entries = req.entries@;
        let mut i: usize = 0;
        proof {
            assert(entries.skip(0) =~= entries);
        }
        while i < n && i < self.log.len() - prev && self.log[prev + i].term == req.entries[i].term
            invariant
                self.same_but_log(&s0),
                self.log@ == log0,
                entries == req.entries@,
                n == entries.len(),
                prev <= log0.len(),
                i <= n,
                prev + i <= log0.len(),
                merge(log0, prev as int, entries) == merge(log0, prev + i, entries.skip(i as int)),
                cuts_below(log0, prev as int, entries, self.commit_index as int) == cuts_below(
                    log0,
                    prev + i,
                    entries.skip(i as int),
                    self.commit_index as int,
                ),
            decreases n - i,
        {
            proof {
                assert(entries.skip(i as int).drop_first() =~= entries.skip(i + 1));
            }
            i = i + 1;
        }
        proof {
            if i < n {
                assert(entries.skip(i as int)[0] == entries[i as int]);
            } else {
                assert(entries.skip(i as int) =~= Seq::<LogEntry>::empty());
            }
        }
        if i < n && ((prev + i) as u64) < self.commit_index {
            return (refused, true);
        }
        if i < n {
            self.log.truncate(prev + i);
            let mut k: usize = i;
            while k < n
                invariant
                    self.same_but_log(&s0),
                    i <= k <= n,
                    n == entries.len(),
                    entries == req.entries@,
                    prev + i <= log0.len(),
                    self.log@ == log0.take(prev + i) + entries.subrange(i as int, k as int),
                decreases n - k,
            {
                self.log.push(req.entries[k].duplicate());
                proof {
                    assert(self.log@ =~= log0.take(prev + i) + entries.subrange(i as int, k + 1));
                }
                k = k + 1;
            }
            proof {
                assert(entries.subrange(i as int, n as int) =~= entries.skip(i as int));
            }
        }
        let len: u64 = self.log.len() as u64;
        if req.leader_commit > self.commit_index {
            if req.leader_commit <= len {
                self.commit_index = req.leader_commit;
            } else if len > self.commit_index {
                self.commit_index = len;
            }
        }
        let matched: u64 = req.prev_log_index + n as u64;
        (AppendReply { term: self.current_term, success: true, matched_index: matched }, true)
    }
    /// A leader may commit index `n`: its entry is from the current term, and
    /// a quorum holds it, counting the leader, whose log holds every entry.
    pub open spec fn committable(&self, n: int) -> bool {
        &&& 1 <= n <= self.log.len()
        &&& term_at(self.log@, n) == self.current_term
        &&& count_at_least(self.match_index@, n) + 1 >= self.majority
    }

    /// `c` is where a leader's commit index stands after recomputing it from
    /// `from`: the highest committable index above `from`, or `from` if none.
    pub open spec fn is_new_commit(&self, from: int, c: int) -> bool {
        &&& c >= from
        &&& c == from || self.committable(c)
        &&& forall|m: int| c < m <= self.log.len() ==> !#[trigger] self.committable(m)
    }

    /// Raises a leader's commit index to the highest committable index.
    fn advance_commit(&mut self)
        requires
            old(self).wf(),
            old(self).role == Role::Leader,
        ensures
            final(self).wf(),
            final(self).same_but_log(&RaftState { commit_index: final(self).commit_index, ..*old(self) }),
            final(self).log@ == old(self).log@,
            final(self).is_new_commit(old(self).commit_index as int, final(self).commit_index as int),
    {
        let mut n: u64 = self.log.len() as u64;
        let ghost s0 = *self;
        while n > self.commit_index
            invariant
                *self == s0,
                s0 == *old(self),
                self.wf(),
                self.role == Role::Leader,
                n <= self.log.len(),
                forall|m: int| n < m <= self.log.len() ==> !#[trigger] self.committable(m),
            decreases n,
        {
            if self.term_of(n) == self.current_term {
                let count: u64 = count_at_least_exec(&self.match_index, n);
                proof {
                    lemma_count_bound(self.match_index@, n as int);
                }
                if count + 1 >= self.majority {
                    self.commit_index = n;
                    proof {
                        assert forall|m: int| #[trigger] self.committable(m) == s0.committable(m) by {}
                    }
                    return;
                }
            }
            n = n - 1;
        }
    }

    /// Whether a replication reply from `from` is news to this leader: it is
    /// of the leader's term, from a peer, and acknowledges no index beyond the
    /// leader's log.
    pub open spec fn takes_reply(&self, from: u64, reply: AppendReply) -> bool {
        &&& self.role == Role::Leader
        &&& reply.term == self.current_term
        &&& self.peers@.contains(from)
        &&& (reply.success ==> reply.matched_index <= self.log.len())
    }

    /// Takes in a peer's answer to an AppendEntries request. A higher term
    /// makes the node a follower of it. For a leader, success records how far
    /// the peer's log matches (next to send: the index after) and recomputes
    /// the commit index; failure steps the peer's next index back by one, not
    /// below 1, for the next round. Anything else changes nothing.
    pub fn handle_append_reply(&mut self, from: u64, reply: &AppendReply)
        requires
            old(self).wf(),
        ensures
            final(self).wf(),
            old(self).keeps_votes(final(self)),
            old(self).keeps_commit(final(self)),
            final(self).node_id == old(self).node_id,
            final(self).peers@ == old(self).peers@,
            final(self).majority == old(self).majority,
            final(self).log@ == old(self).log@,
            final(self).last_applied == old(self).last_applied,
            final(self).commit_index >= old(self).commit_index,
            reply.term > old(self).current_term ==> {
                &&& final(self).same_node_and_log(old(self))
                &&& final(self).fresh_follower(reply.term)
            },
            reply.term <= old(self).current_term && !old(self).takes_reply(from, *reply)
                ==> *final(self) == *old(self),
            old(self).takes_reply(from, *reply) ==> {
                &&& final(self).role == Role::Leader
                &&& final(self).current_term == old(self).current_term
                &&& final(self).voted_for == old(self).voted_for
                &&& forall|p: int| 0 <= p < old(self).peers.len() && old(self).peers@[p] == from ==> {
                    if reply.success {
                        &&& final(self).match_index@ == old(self).match_index@.update(
                            p,
                            reply.matched_index,
                        )
                        &&& final(self).next_index@ == old(self).next_index@.update(
                            p,
                            (reply.matched_index + 1) as u64,
                        )
                        &&& final(self).is_new_commit(
                            old(self).commit_index as int,
                            final(self).commit_index as int,
                        )
                    } else {
                        &&& final(self).match_index@ == old(self).match_index@
                        &&& final(self).next_index@ == old(self).next_index@.update(
                            p,
                            if old(self).next_index@[p] > 1 {
                                (old(self).next_index@[p] - 1) as u64
                            } else {
                                1
                            },
                        )
                        &&& final(self).commit_index == old(self).commit_index
                    }
                }
            },
    {
        if reply.term > self.current_term {
            self.step_down(reply.term);
            return;
        }
        if self.role != Role::Leader || reply.term != self.current_term {
            return;
        }
        let p: usize = match find_index(&self.peers, from) {
            Some(p) => p,
            None => {
                return;
            },
        };
        if reply.success {
            if reply.matched_index > self.log.len() as u64 {
                return;
            }
            self.match_index.set(p, reply.matched_index);
            self.next_index.set(p, reply.matched_index + 1);
            self.advance_commit();
        } else if self.next_index[p] > 1 {
            let next: u64 = self.next_index[p] - 1;
            self.next_index.set(p, next);
        }
    }

    /// A client's command. A leader appends it to its log in its current term
    /// and returns its index; replication to the peers follows on the next
    /// rounds, and the commit index is recomputed (a lone node commits at once).
    /// Other roles refuse it.
    pub fn propose(&mut self, command: String) -> (r: Result<u64, ProposeError>)
        requires
            old(self).wf(),
        ensures
            final(self).wf(),
            old(self).keeps_votes(final(self)),
            old(self).keeps_commit(final(self)),
            final(self).node_id == old(self).node_id,
            final(self).peers@ == old(self).peers@,
            final(self).role == old(self).role,
            final(self).current_term == old(self).current_term,
            final(self).voted_for == old(self).voted_for,
            final(self).match_index@ == old(self).match_index@,
            final(self).next_index@ == old(self).next_index@,
            final(self).last_applied == old(self).last_applied,
            old(self).role != Role::Leader ==> r == Err::<u64, ProposeError>(ProposeError::NotLeader)
                && *final(self) == *old(self),
            old(self).role == Role::Leader && old(self).log.len() + 1 >= u64::MAX ==> r == Err::<
                u64,
                ProposeError,
            >(ProposeError::LogFull) && *final(self) == *old(self),
            old(self).role == Role::Leader && old(self).log.len() + 1 < u64::MAX ==> {
                &&& r == Ok::<u64, ProposeError>((old(self).log.len() + 1) as u64)
                &&& final(self).log@ == old(self).log@.push(
                    LogEntry { term: old(self).current_term, command },
                )
                &&& final(self).is_new_commit(
                    old(self).commit_index as int,
                    final(self).commit_index as int,
                )
            },
    {
        if self.role != Role::Leader {
            return Err(ProposeError::NotLeader);
        }
        if self.log.len() as u64 >= u64::MAX - 1 {
            return Err(ProposeError::LogFull);
        }
        self.log.push(LogEntry { term: self.current_term, command });
        self.advance_commit();
        Ok(self.log.len() as u64)
    }
    /// Hands out the next committed entry not yet applied, if any, and
    /// counts it as applied.
    pub fn apply_next(&mut self) -> (r: Option<LogEntry>)
        requires
            old(self).wf(),
        ensures
            final(self).wf(),
            old(self).keeps_votes(final(self)),
            old(self).keeps_commit(final(self)),
            old(self).last_applied < old(self).commit_index ==> {
                &&& *final(self) == RaftState { last_applied: (old(self).last_applied + 1) as u64, ..*old(self) }
                &&& r == Some(old(self).log@[old(self).last_applied as int])
            },
            old(self).last_applied >= old(self).commit_index ==> *final(self) == *old(self) && r is None,
    {
        if self.last_applied < self.commit_index {
            let entry = self.log[self.last_applied as usize].duplicate();
            self.last_applied = self.last_applied + 1;
            Some(entry)
        } else {
            None
        }
    }
}

} // verus!
