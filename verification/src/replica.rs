//! The replica: persistent-ish fields, the RPC handlers, and the decisions of
//! the role-driven driver loop. Everything here is deterministic computation
//! under the replica lock; the surrounding process performs the socket work
//! and feeds decoded frames back in.

use crate::state::{commit_point, count_true, is_commit_point, Role, State, N};
use crate::wire::{push_word, spec_deserialize_request, spec_deserialize_response,
    spec_serialize_request, spec_serialize_response, u32_from_be, u32_to_be, AppendEntryRequest,
    AppendEntryResponse, Request, Response, VoteRequest, VoteResponse};
use vstd::prelude::*;

verus! {

/// Replica i listens on 127.0.0.1:(BASE_PORT + i).
pub const BASE_PORT: usize = 7890;

/// Base heartbeat interval H, in seconds. Candidates wait 2H between vote
/// rounds; followers time out after a 4H pass without a heartbeat.
pub const HEARTBEAT_INTERVAL_SEC: u64 = 1;

/// Request id marking a local propose injection rather than a peer RPC.
pub const PROPOSE_ID: usize = 0xffff_ffff;

/// A candidacy restarts with a fresh term after this many fruitless vote
/// rounds.
pub const MAX_VOTE_ATTEMPTS: u32 = 4;

/// One Raft replica. The log is indexed from 0; entry 0 is the permanent
/// sentinel (0, 0) and real entries begin at index 1.
#[derive(Debug, PartialEq, Eq)]
pub struct Raft {
    pub id: usize,
    pub state: State,
    pub term: u32,
    pub log: Vec<(u32, u32)>,
    pub commit_index: usize,
}

/// The mathematical value of a replica: the same fields over sequences.
#[verifier::ext_equal]
pub struct Model {
    pub id: usize,
    pub role: Role,
    pub term: u32,
    pub log: Seq<(u32, u32)>,
    pub commit_index: usize,
}

impl View for Raft {
    type V = Model;

    open spec fn view(&self) -> Model {
        Model {
            id: self.id,
            role: self.state@,
            term: self.term,
            log: self.log@,
            commit_index: self.commit_index,
        }
    }
}

impl Model {
    /// The replica invariants of the data model: the sentinel entry stays at
    /// index 0, the commit index stays inside the log, a leader's per-peer
    /// indices stay inside the log, and a candidacy's round count stays at
    /// the restart bound or below.
    pub open spec fn wf(self) -> bool {
        &&& self.id < N
        &&& self.role.wf()
        &&& self.log.len() >= 1
        &&& self.log[0] == (0u32, 0u32)
        &&& (self.commit_index as int) < self.log.len()
        &&& (self.role matches Role::Leader { next_index, .. } ==> (forall|p: int|
            0 <= p < N as int ==> 1 <= #[trigger] next_index[p] <= self.log.len()))
        &&& (self.role matches Role::Leader { match_index, .. } ==> (forall|p: int|
            0 <= p < N as int ==> (#[trigger] match_index[p] as int) < self.log.len()))
        &&& (self.role matches Role::Candidate { attempts, .. } ==> attempts <= MAX_VOTE_ATTEMPTS)
    }
}

/// The freshly started replica: a follower with no vote cast, term 0, the
/// sentinel log, and the timeout flag set so that no election fires at once.
pub open spec fn init_model(id: usize) -> Model {
    Model {
        id,
        role: Role::Follower { voted_for: None, heartbeat_received: true },
        term: 0,
        log: seq![(0u32, 0u32)],
        commit_index: 0,
    }
}

/// The replica after stepping down to follow `leader` at `term`.
pub open spec fn follower_model(m: Model, leader: Option<usize>, term: u32) -> Model {
    Model { role: Role::Follower { voted_for: leader, heartbeat_received: true }, term, ..m }
}

/// The replica after opening a candidacy: a fresh vote tally holding only the
/// self-vote, and the term bumped by one.
pub open spec fn candidate_model(m: Model) -> Model {
    Model {
        role: Role::Candidate {
            voted_by: Seq::new(N as nat, |p: int| p == m.id as int),
            attempts: 0,
        },
        term: (m.term + 1) as u32,
        ..m
    }
}

/// The replica after winning an election: every peer's next index starts at
/// the end of the log, match indices start at 0 except the replica's own.
pub open spec fn leader_model(m: Model) -> Model {
    Model {
        role: Role::Leader {
            next_index: Seq::new(N as nat, |p: int| m.log.len() as usize),
            match_index: Seq::new(
                N as nat,
                |p: int|
                    if p == m.id as int {
                        (m.log.len() - 1) as usize
                    } else {
                        0usize
                    },
            ),
        },
        ..m
    }
}

impl Raft {
    /// A freshly started replica.
    pub fn new(id: usize) -> (r: Raft)
        requires
            id < N,
        ensures
            r@ == init_model(id),
            r@.wf(),
    {
        let r = Raft {
            id,
            state: State::Follower { voted_for: None, heartbeat_received: true },
            term: 0,
            log: vec![(0, 0)],
            commit_index: 0,
        };
        proof {
            assert(r@ =~~= init_model(id));
        }
        r
    }

    /// Takes the Leader role, starting every peer at the end of the log.
    /// The term does not change.
    pub fn become_leader(&mut self)
        requires
            old(self)@.wf(),
        ensures
            final(self)@ == leader_model(old(self)@),
            final(self)@.wf(),
    {
        self.state = State::Leader { next_index: vec![self.log.len(); N], match_index: vec![0; N] };
        let last = self.log.len() - 1;
        self.state.set_match_index(self.id, last);
        proof {
            assert(self@ =~~= leader_model(old(self)@));
        }
    }

    /// Opens a candidacy: fresh tally, self-vote, term bumped by one.
    pub fn become_candidate(&mut self)
        requires
            old(self)@.wf(),
            old(self).term < u32::MAX,
        ensures
            final(self)@ == candidate_model(old(self)@),
            final(self)@.wf(),
    {
        self.state = State::Candidate { voted_by: vec![false; N], attempts: 0 };
        self.state.count_vote(self.id);
        self.term = self.term + 1;
        proof {
            assert(self@ =~~= candidate_model(old(self)@));
        }
    }

    /// Steps down to follow `leader` at `term`, with the timeout flag set.
    pub fn become_follower(&mut self, leader: Option<usize>, term: u32)
        requires
            old(self)@.wf(),
        ensures
            final(self)@ == follower_model(old(self)@, leader, term),
            final(self)@.wf(),
    {
        self.state = State::Follower { voted_for: leader, heartbeat_received: true };
        self.term = term;
        proof {
            assert(self@ =~~= follower_model(old(self)@, leader, term));
        }
    }
}

/// Whether an AppendEntries request is accepted: its term is newer than ours,
/// or equal while we already follow.
pub open spec fn accepts_append(m: Model, a: AppendEntryRequest) -> bool {
    m.term < a.term || (m.term == a.term && m.role is Follower)
}

/// Whether our log holds the leader's previous entry with the attested term.
pub open spec fn log_matches_at(m: Model, a: AppendEntryRequest) -> bool {
    m.log.len() > a.prev_log_index && m.log[a.prev_log_index as int].0 == a.prev_log_term
}

/// Our log after folding in the request's attached entry: appended at the end
/// when it is the next index, overwritten in place otherwise.
pub open spec fn log_after_append(m: Model, a: AppendEntryRequest) -> Seq<(u32, u32)> {
    match a.entry {
        Some(e) => if m.log.len() == a.prev_log_index + 1 {
            m.log.push(e)
        } else {
            m.log.update(a.prev_log_index + 1, e)
        },
        None => m.log,
    }
}

/// Our commit index after an accepted, matching AppendEntries: advanced to the
/// leader's commit index, capped by the end of our log, never moved back.
pub open spec fn commit_after_append(m: Model, a: AppendEntryRequest) -> usize {
    let cap = if a.commit_index as int <= m.log.len() - 1 {
        a.commit_index
    } else {
        (m.log.len() - 1) as usize
    };
    if m.commit_index >= cap {
        m.commit_index
    } else {
        cap
    }
}

/// The replica after handling an AppendEntries request: a propose
/// injection appends locally; an accepted request steps us down to follow the
/// sender, then advances commit and log if the previous entry matches; a
/// rejected request changes nothing.
pub open spec fn after_append(m: Model, a: AppendEntryRequest) -> Model {
    if a.id == PROPOSE_ID {
        match a.entry {
            Some(e) => {
                let log2 = m.log.push(e);
                if m.role is Leader {
                    Model {
                        log: log2,
                        role: Role::Leader {
                            next_index: m.role->next_index.update(
                                m.id as int,
                                log2.len() as usize,
                            ),
                            match_index: m.role->match_index.update(
                                m.id as int,
                                (log2.len() - 1) as usize,
                            ),
                        },
                        ..m
                    }
                } else {
                    Model { log: log2, ..m }
                }
            },
            None => m,
        }
    } else if accepts_append(m, a) {
        let m1 = follower_model(m, Some(a.id), a.term);
        if log_matches_at(m, a) {
            Model { commit_index: commit_after_append(m, a), log: log_after_append(m, a), ..m1 }
        } else {
            m1
        }
    } else {
        m
    }
}

/// The response to an AppendEntries request, from the same pre-state.
pub open spec fn append_response(m: Model, a: AppendEntryRequest) -> AppendEntryResponse {
    if a.id == PROPOSE_ID {
        AppendEntryResponse { id: m.id, term: m.term, success: a.entry is Some, match_index: 0 }
    } else if accepts_append(m, a) {
        if log_matches_at(m, a) {
            AppendEntryResponse {
                id: m.id,
                term: a.term,
                success: true,
                match_index: if a.entry is Some {
                    (a.prev_log_index + 1) as usize
                } else {
                    a.prev_log_index
                },
            }
        } else {
            AppendEntryResponse { id: m.id, term: a.term, success: false, match_index: 0 }
        }
    } else {
        AppendEntryResponse { id: m.id, term: m.term, success: false, match_index: 0 }
    }
}

/// Whether the candidate's log is at least as up to date as ours: a later
/// last term, or the same last term and at least our last index.
pub open spec fn log_fresh(m: Model, v: VoteRequest) -> bool {
    let last_term = m.log[m.log.len() - 1].0;
    ||| last_term < v.last_log_term
    ||| (last_term == v.last_log_term && m.log.len() - 1 <= v.last_log_index as int)
}

/// Whether the vote is granted: an idempotent re-grant to the
/// candidate already voted for in this exact term, or a first grant to a
/// newer-term candidate whose log is at least as up to date.
pub open spec fn grants_vote(m: Model, v: VoteRequest) -> bool {
    ||| is_regrant(m, v)
    ||| (m.term < v.term && log_fresh(m, v))
}

/// Whether the request repeats the vote already granted in this exact term.
pub open spec fn is_regrant(m: Model, v: VoteRequest) -> bool {
    &&& m.term == v.term
    &&& m.role matches Role::Follower { voted_for: Some(c), .. }
    &&& c == v.id
}

/// Our term after handling a vote request: never below the candidate's.
pub open spec fn term_after_vote(m: Model, v: VoteRequest) -> u32 {
    if m.term >= v.term {
        m.term
    } else {
        v.term
    }
}

/// The replica after handling a vote request: a first grant steps us down to
/// follow the candidate at its term; otherwise only the term may advance.
pub open spec fn after_vote(m: Model, v: VoteRequest) -> Model {
    if is_regrant(m, v) {
        m
    } else if m.term < v.term && log_fresh(m, v) {
        follower_model(m, Some(v.id), v.term)
    } else {
        Model { term: term_after_vote(m, v), ..m }
    }
}

/// The response to a vote request, from the same pre-state.
pub open spec fn vote_response(m: Model, v: VoteRequest) -> VoteResponse {
    VoteResponse { id: m.id, term: term_after_vote(m, v), granted: grants_vote(m, v) }
}

/// The replica after handling either request kind.
pub open spec fn after_request(m: Model, req: Request) -> Model {
    match req {
        Request::A(a) => after_append(m, a),
        Request::V(v) => after_vote(m, v),
    }
}

/// The response to either request kind, from the same pre-state.
pub open spec fn response_for(m: Model, req: Request) -> Response {
    match req {
        Request::A(a) => Response::A(append_response(m, a)),
        Request::V(v) => Response::V(vote_response(m, v)),
    }
}

impl Raft {
    /// Handles one decoded inbound request under the replica lock and returns
    /// the response to send back.
    pub fn handle_request(&mut self, req: Request) -> (res: Response)
        requires
            old(self)@.wf(),
        ensures
            final(self)@.wf(),
            final(self)@ == after_request(old(self)@, req),
            res == response_for(old(self)@, req),
            final(self).term >= old(self).term,
            final(self).commit_index >= old(self).commit_index,
    {
        match req {
            Request::A(ae_req) => {
                let mut success = false;
                let mut match_index: usize = 0;
                if ae_req.id == PROPOSE_ID {
                    if let Some(entry) = ae_req.entry {
                        self.log.push(entry);
                        if self.state.is_leader() {
                            let len = self.log.len();
                            self.state.set_next_index(self.id, len);
                            self.state.set_match_index(self.id, len - 1);
                        }
                        success = true;
                    }
                } else if self.term < ae_req.term || (self.term == ae_req.term
                    && self.state.is_follower()) {
                    self.become_follower(Some(ae_req.id), ae_req.term);
                    if self.log.len() > ae_req.prev_log_index && self.log[ae_req.prev_log_index].0
                        == ae_req.prev_log_term {
                        success = true;
                        match_index = ae_req.prev_log_index;
                        let cap = if ae_req.commit_index <= self.log.len() - 1 {
                            ae_req.commit_index
                        } else {
                            self.log.len() - 1
                        };
                        if cap > self.commit_index {
                            self.commit_index = cap;
                        }
                        if let Some(entry) = ae_req.entry {
                            if self.log.len() == ae_req.prev_log_index + 1 {
                                self.log.push(entry);
                            } else {
                                self.log[ae_req.prev_log_index + 1] = entry;
                            }
                            match_index = match_index + 1;
                        }
                    }
                }
                let res = Response::A(
                    AppendEntryResponse { id: self.id, term: self.term, success, match_index },
                );
                proof {
                    assert(self@ =~~= after_request(old(self)@, req));
                }
                res
            },
            Request::V(v_req) => {
                let mut granted = self.term == v_req.term && self.state.voted_for(v_req.id);
                if !granted {
                    let last_log_index = self.log.len() - 1;
                    let last_log_term = self.log[last_log_index].0;
                    granted = self.term < v_req.term && (last_log_term < v_req.last_log_term || (
                    last_log_term == v_req.last_log_term && last_log_index
                        <= v_req.last_log_index));
                    if granted {
                        self.become_follower(Some(v_req.id), v_req.term);
                    }
                }
                if v_req.term > self.term {
                    self.term = v_req.term;
                }
                let res = Response::V(VoteResponse { id: self.id, term: self.term, granted });
                proof {
                    assert(self@ =~~= after_request(old(self)@, req));
                }
                res
            },
        }
    }
}

/// The replica after folding in one RPC response. Stale
/// responses (older term, or a role we already left) change nothing. A
/// successful append response moves the peer's indices forward and commits up
/// to the majority-backed match index; a same-term failure steps the peer's
/// next index back; a newer term steps us down. A granted vote is tallied and
/// a majority makes us leader; a newer-term denial steps us down.
pub open spec fn after_response(m: Model, res: Response) -> Model {
    match res {
        Response::A(a) => {
            if a.term < m.term || !(m.role is Leader) {
                m
            } else if a.success {
                let mi2 = m.role->match_index.update(a.id as int, a.match_index);
                let nx2 = m.role->next_index.update(a.id as int, (a.match_index + 1) as usize);
                let cp = commit_point(mi2);
                Model {
                    role: Role::Leader { next_index: nx2, match_index: mi2 },
                    commit_index: if m.commit_index >= cp {
                        m.commit_index
                    } else {
                        cp
                    },
                    ..m
                }
            } else if a.term == m.term {
                let cur = m.role->next_index[a.id as int];
                Model {
                    role: Role::Leader {
                        next_index: if cur > 1 {
                            m.role->next_index.update(a.id as int, (cur - 1) as usize)
                        } else {
                            m.role->next_index
                        },
                        match_index: m.role->match_index,
                    },
                    ..m
                }
            } else {
                follower_model(m, None, a.term)
            }
        },
        Response::V(v) => {
            if v.term < m.term || !(m.role is Candidate) {
                m
            } else if v.granted {
                let vb2 = m.role->voted_by.update(v.id as int, true);
                let tallied = Model {
                    role: Role::Candidate { voted_by: vb2, attempts: m.role->attempts },
                    ..m
                };
                if count_true(vb2) > (N / 2) as int {
                    leader_model(tallied)
                } else {
                    tallied
                }
            } else if v.term > m.term {
                follower_model(m, None, v.term)
            } else {
                m
            }
        },
    }
}

/// Whether the driver should replicate again without sleeping: the peer still
/// lags after a successful append, or its next index was just stepped back.
pub open spec fn retry_after(m: Model, res: Response) -> bool {
    match res {
        Response::A(a) => {
            if a.term < m.term || !(m.role is Leader) {
                false
            } else if a.success {
                a.match_index + 1 < m.log.len()
            } else {
                a.term == m.term
            }
        },
        Response::V(_) => false,
    }
}

/// A response that would be applied but carries a peer id outside the
/// cluster, or a match index outside our log: applying it would reach past
/// the per-peer vectors or the log. `accept_response` drops such responses.
pub open spec fn malformed_response(m: Model, res: Response) -> bool {
    match res {
        Response::A(a) => a.term >= m.term && m.role is Leader && (a.id >= N || (a.success
            && a.match_index as int >= m.log.len())),
        Response::V(v) => v.term >= m.term && m.role is Candidate && v.granted && v.id >= N,
    }
}

impl Raft {
    /// Folds one decoded RPC response into the replica under the lock and
    /// says whether the driver should replicate again at once.
    pub fn handle_response(&mut self, res: Response) -> (r: bool)
        requires
            old(self)@.wf(),
            !malformed_response(old(self)@, res),
        ensures
            final(self)@.wf(),
            final(self)@ == after_response(old(self)@, res),
            r == retry_after(old(self)@, res),
            final(self).term >= old(self).term,
            final(self).commit_index >= old(self).commit_index,
    {
        let mut immediate_retry_required = false;
        match res {
            Response::A(ae_res) => {
                if ae_res.term < self.term || !self.state.is_leader() {
                    return immediate_retry_required;
                }
                if ae_res.success {
                    proof {
                        assert(ae_res.match_index as int + 1 <= self.log.len());
                    }
                    self.state.set_match_index(ae_res.id, ae_res.match_index);
                    self.state.set_next_index(ae_res.id, ae_res.match_index + 1);
                    let c = self.state.get_index_to_commit();
                    proof {
                        let mi2 = self.state@->match_index;
                        assert(is_commit_point(mi2, c));
                        let k = choose|k: int| 0 <= k < mi2.len() && mi2[k] == c;
                        assert(0 <= k < mi2.len() && mi2[k] == c);
                    }
                    if c > self.commit_index {
                        self.commit_index = c;
                    }
                    immediate_retry_required = self.state.get_next_index(ae_res.id)
                        < self.log.len();
                } else if ae_res.term == self.term {
                    self.state.decrement_next_index(ae_res.id);
                    immediate_retry_required = true;
                } else {
                    self.become_follower(None, ae_res.term);
                }
                proof {
                    assert(self@ =~~= after_response(old(self)@, res));
                }
            },
            Response::V(v_res) => {
                if v_res.term < self.term || !self.state.is_candidate() {
                    return immediate_retry_required;
                }
                if v_res.granted {
                    self.state.count_vote(v_res.id);
                    if self.state.has_enough_votes() {
                        self.become_leader();
                    }
                } else if v_res.term > self.term {
                    self.become_follower(None, v_res.term);
                }
                proof {
                    assert(self@ =~~= after_response(old(self)@, res));
                }
            },
        }
        immediate_retry_required
    }

    /// Folds in a response after checking it is not malformed for the current
    /// state; a malformed one is dropped and the replica is left unchanged.
    /// Returns the immediate-retry signal, or `None` for a dropped response.
    pub fn accept_response(&mut self, res: Response) -> (r: Option<bool>)
        requires
            old(self)@.wf(),
        ensures
            final(self)@.wf(),
            r matches Some(b) ==> final(self)@ == after_response(old(self)@, res) && b
                == retry_after(old(self)@, res),
            r is Some <==> !malformed_response(old(self)@, res),
            r is None ==> *final(self) == *old(self),
            final(self).term >= old(self).term,
            final(self).commit_index >= old(self).commit_index,
    {
        match res {
            Response::A(a) => {
                if a.term >= self.term && self.state.is_leader() && (a.id >= N || (a.success
                    && a.match_index >= self.log.len())) {
                    return None;
                }
            },
            Response::V(v) => {
                if v.term >= self.term && self.state.is_candidate() && v.granted && v.id >= N {
                    return None;
                }
            },
        }
        Some(self.handle_response(res))
    }
}

/// The peers of replica `id`, in ascending order: every replica but `id`.
pub open spec fn peers_of(id: usize) -> Seq<usize> {
    Seq::new(
        (N - 1) as nat,
        |k: int|
            if k < id as int {
                k as usize
            } else {
                (k + 1) as usize
            },
    )
}

/// The AppendEntries request a leader forms for peer `p`: the entry at
/// the peer's next index if one exists, else a bare heartbeat, always
/// attesting the entry just before and carrying our commit index.
pub open spec fn heartbeat_request_for(m: Model, p: int) -> AppendEntryRequest {
    let nx = m.role->next_index[p];
    AppendEntryRequest {
        id: m.id,
        term: m.term,
        prev_log_index: (nx - 1) as usize,
        prev_log_term: m.log[nx - 1].0,
        entry: if (nx as int) < m.log.len() {
            Some(m.log[nx as int])
        } else {
            None
        },
        commit_index: m.commit_index,
    }
}

/// The vote request a candidate sends: its term and the position of the last
/// log entry.
pub open spec fn vote_request_of(m: Model) -> VoteRequest {
    VoteRequest {
        id: m.id,
        term: m.term,
        last_log_index: (m.log.len() - 1) as usize,
        last_log_term: m.log[m.log.len() - 1].0,
    }
}

/// What one driver pass asks the process to send, besides the state change it
/// already made: replicate to every peer (leader; wait H, or nothing when a
/// response asks for an immediate retry), solicit votes from every peer
/// (candidate; wait 2H), or only stand by for heartbeats (follower; wait 4H).
#[derive(Debug, PartialEq, Eq)]
pub enum DriverPlan {
    Replicate { appends: Vec<(usize, AppendEntryRequest)> },
    Solicit { votes: Vec<(usize, VoteRequest)> },
    Standby,
}

/// The replica after one driver pass. A leader only sends. A candidate
/// counts one more vote round and restarts the candidacy with a fresh term
/// once the round count passes the bound. A follower that saw no heartbeat
/// opens a candidacy and runs its first vote round in the same pass; one that
/// did clears the flag.
pub open spec fn after_tick(m: Model) -> Model {
    match m.role {
        Role::Leader { .. } => m,
        Role::Candidate { voted_by, attempts } => {
            if attempts + 1 > MAX_VOTE_ATTEMPTS {
                candidate_model(m)
            } else {
                Model {
                    role: Role::Candidate { voted_by, attempts: (attempts + 1) as u32 },
                    ..m
                }
            }
        },
        Role::Follower { voted_for, heartbeat_received } => {
            if !heartbeat_received {
                let mc = candidate_model(m);
                Model {
                    role: Role::Candidate { voted_by: mc.role->voted_by, attempts: 1 },
                    ..mc
                }
            } else {
                Model { role: Role::Follower { voted_for, heartbeat_received: false }, ..m }
            }
        },
    }
}

impl Raft {
    /// The vote requests of the current candidacy, one per peer, in peer
    /// order.
    pub fn request_votes(&self) -> (reqs: Vec<(usize, VoteRequest)>)
        requires
            self@.wf(),
        ensures
            reqs@.len() == (N - 1) as int,
            forall|k: int|
                0 <= k < reqs@.len() ==> #[trigger] reqs@[k] == (
                    peers_of(self.id)[k],
                    vote_request_of(self@),
                ),
    {
        let last_log_index = self.log.len() - 1;
        let req = VoteRequest {
            id: self.id,
            term: self.term,
            last_log_index,
            last_log_term: self.log[last_log_index].0,
        };
        let mut reqs: Vec<(usize, VoteRequest)> = Vec::new();
        let mut p: usize = 0;
        while p < N
            invariant
                p <= N,
                self.id < N,
                req == vote_request_of(self@),
                reqs@.len() == (if p <= self.id {
                    p as int
                } else {
                    p - 1
                }),
                forall|k: int|
                    0 <= k < reqs@.len() ==> #[trigger] reqs@[k] == (
                        peers_of(self.id)[k],
                        vote_request_of(self@),
                    ),
            decreases N - p,
        {
            if p != self.id {
                reqs.push((p, req));
            }
            p = p + 1;
        }
        reqs
    }

    /// The AppendEntries requests of one leader heartbeat fan-out, one per
    /// peer, in peer order.
    pub fn heartbeat_requests(&self) -> (reqs: Vec<(usize, AppendEntryRequest)>)
        requires
            self@.wf(),
            self@.role is Leader,
        ensures
            reqs@.len() == (N - 1) as int,
            forall|k: int|
                0 <= k < reqs@.len() ==> #[trigger] reqs@[k] == (
                    peers_of(self.id)[k],
                    heartbeat_request_for(self@, peers_of(self.id)[k] as int),
                ),
    {
        let mut reqs: Vec<(usize, AppendEntryRequest)> = Vec::new();
        let mut p: usize = 0;
        while p < N
            invariant
                p <= N,
                self@.wf(),
                self@.role is Leader,
                reqs@.len() == (if p <= self.id {
                    p as int
                } else {
                    p - 1
                }),
                forall|k: int|
                    0 <= k < reqs@.len() ==> #[trigger] reqs@[k] == (
                        peers_of(self.id)[k],
                        heartbeat_request_for(self@, peers_of(self.id)[k] as int),
                    ),
            decreases N - p,
        {
            if p != self.id {
                let nx = self.state.get_next_index(p);
                let prev = nx - 1;
                let req = AppendEntryRequest {
                    id: self.id,
                    term: self.term,
                    prev_log_index: prev,
                    prev_log_term: self.log[prev].0,
                    entry: if nx < self.log.len() {
                        Some(self.log[nx])
                    } else {
                        None
                    },
                    commit_index: self.commit_index,
                };
                proof {
                    assert(req == heartbeat_request_for(self@, p as int));
                }
                reqs.push((p, req));
            }
            p = p + 1;
        }
        reqs
    }

    /// One pass of the role-driven driver loop: makes the pass's state
    /// change and returns what the process should send before sleeping.
    pub fn driver_pass(&mut self) -> (plan: DriverPlan)
        requires
            old(self)@.wf(),
            old(self).term < u32::MAX,
        ensures
            final(self)@.wf(),
            final(self)@ == after_tick(old(self)@),
            old(self)@.role is Leader ==> (plan matches DriverPlan::Replicate { appends }
                && appends@.len() == (N - 1) as int && (forall|k: int|
                0 <= k < appends@.len() ==> #[trigger] appends@[k] == (
                    peers_of(old(self).id)[k],
                    heartbeat_request_for(old(self)@, peers_of(old(self).id)[k] as int),
                ))),
            old(self)@.role is Candidate ==> (plan matches DriverPlan::Solicit { votes }
                && votes@.len() == (N - 1) as int && (forall|k: int|
                0 <= k < votes@.len() ==> #[trigger] votes@[k] == (
                    peers_of(old(self).id)[k],
                    vote_request_of(old(self)@),
                ))),
            (old(self)@.role matches Role::Follower { heartbeat_received: false, .. }) ==> (plan
                matches DriverPlan::Solicit { votes } && votes@.len() == (N - 1) as int && (
            forall|k: int|
                0 <= k < votes@.len() ==> #[trigger] votes@[k] == (
                    peers_of(old(self).id)[k],
                    vote_request_of(candidate_model(old(self)@)),
                ))),
            (old(self)@.role matches Role::Follower { heartbeat_received: true, .. }) ==> (plan
                is Standby),
            final(self).term >= old(self).term,
            final(self).commit_index == old(self).commit_index,
    {
        if self.state.is_follower() {
            if !self.state.heartbeat_received() {
                self.become_candidate();
                let reqs = self.request_votes();
                self.state.increment_vote_request_attempts();
                proof {
                    assert(self@ =~~= after_tick(old(self)@));
                }
                return DriverPlan::Solicit { votes: reqs };
            }
            self.state.unset_heartbeat_received();
            proof {
                assert(self@ =~~= after_tick(old(self)@));
            }
            return DriverPlan::Standby;
        }
        if self.state.is_candidate() {
            let reqs = self.request_votes();
            self.state.increment_vote_request_attempts();
            if self.state.get_vote_request_attempts() > MAX_VOTE_ATTEMPTS {
                self.state.reset_vote_request_attempts();
                self.become_candidate();
            }
            proof {
                assert(self@ =~~= after_tick(old(self)@));
            }
            return DriverPlan::Solicit { votes: reqs };
        }
        let reqs = self.heartbeat_requests();
        proof {
            assert(self@ =~~= after_tick(old(self)@));
        }
        DriverPlan::Replicate { appends: reqs }
    }
}

/// The next value of the per-replica sleep-jitter sequence. The driver seeds
/// it with 1 + id and sleeps the role's interval plus this many milliseconds,
/// desynchronising elections.
pub fn jitter_next(w: u32) -> (r: u32)
    ensures
        r as int == (w as int * 997) % 977,
        r < 977,
{
    (((w as u64) * 997) % 977) as u32
}

/// The listen address of replica `id`.
pub open spec fn addr_spec(id: int) -> Seq<char> {
    if id == 0 {
        "127.0.0.1:7890"@
    } else if id == 1 {
        "127.0.0.1:7891"@
    } else if id == 2 {
        "127.0.0.1:7892"@
    } else if id == 3 {
        "127.0.0.1:7893"@
    } else {
        "127.0.0.1:7894"@
    }
}


impl Raft {
    /// Flattens the eight words of a frame into its 32 bytes.
    pub fn concat_u8_4_8_arrays(u8_4_8_arrays: [[u8; 4]; 8]) -> (r: Vec<u8>)
        ensures
            r@ == u8_4_8_arrays@[0]@ + u8_4_8_arrays@[1]@ + u8_4_8_arrays@[2]@
                + u8_4_8_arrays@[3]@ + u8_4_8_arrays@[4]@ + u8_4_8_arrays@[5]@
                + u8_4_8_arrays@[6]@ + u8_4_8_arrays@[7]@,
            r@.len() == 32,
    {
        let mut r: Vec<u8> = Vec::new();
        push_word(&mut r, u8_4_8_arrays[0]);
        push_word(&mut r, u8_4_8_arrays[1]);
        push_word(&mut r, u8_4_8_arrays[2]);
        push_word(&mut r, u8_4_8_arrays[3]);
        push_word(&mut r, u8_4_8_arrays[4]);
        push_word(&mut r, u8_4_8_arrays[5]);
        push_word(&mut r, u8_4_8_arrays[6]);
        push_word(&mut r, u8_4_8_arrays[7]);
        r
    }

    /// Encodes a request into its 32-byte frame.
    pub fn serialize_request(req: Request) -> (r: Vec<u8>)
        ensures
            r@ == spec_serialize_request(req),
            r@.len() == 32,
    {
        match req {
            Request::A(a) => Self::concat_u8_4_8_arrays(
                [
                    [0xff; 4],
                    u32_to_be(#[verifier::truncate] (a.id as u32)),
                    u32_to_be(a.term),
                    u32_to_be(#[verifier::truncate] (a.prev_log_index as u32)),
                    u32_to_be(a.prev_log_term),
                    u32_to_be(#[verifier::truncate] (a.commit_index as u32)),
                    match a.entry {
                        Some(e) => u32_to_be(e.0),
                        None => [0x00; 4],
                    },
                    match a.entry {
                        Some(e) => u32_to_be(e.1),
                        None => [0x00; 4],
                    },
                ],
            ),
            Request::V(v) => Self::concat_u8_4_8_arrays(
                [
                    [0x00; 4],
                    u32_to_be(#[verifier::truncate] (v.id as u32)),
                    u32_to_be(v.term),
                    u32_to_be(#[verifier::truncate] (v.last_log_index as u32)),
                    u32_to_be(v.last_log_term),
                    [0x00; 4],
                    [0x00; 4],
                    [0x00; 4],
                ],
            ),
        }
    }

    /// Encodes a response into its 32-byte frame.
    pub fn serialize_response(res: Response) -> (r: Vec<u8>)
        ensures
            r@ == spec_serialize_response(res),
            r@.len() == 32,
    {
        match res {
            Response::A(a) => Self::concat_u8_4_8_arrays(
                [
                    [0xff; 4],
                    u32_to_be(#[verifier::truncate] (a.id as u32)),
                    u32_to_be(a.term),
                    if a.success {
                        [0xff; 4]
                    } else {
                        [0x00; 4]
                    },
                    u32_to_be(#[verifier::truncate] (a.match_index as u32)),
                    [0xff; 4],
                    [0xff; 4],
                    [0xff; 4],
                ],
            ),
            Response::V(v) => Self::concat_u8_4_8_arrays(
                [
                    [0x00; 4],
                    u32_to_be(#[verifier::truncate] (v.id as u32)),
                    u32_to_be(v.term),
                    if v.granted {
                        [0xff; 4]
                    } else {
                        [0x00; 4]
                    },
                    [0x00; 4],
                    [0x00; 4],
                    [0x00; 4],
                    [0x00; 4],
                ],
            ),
        }
    }

    /// Decodes a 32-byte frame into a request.
    pub fn deserialize_request(byte_array: &Vec<u8>) -> (r: Request)
        requires
            byte_array@.len() == 32,
        ensures
            r == spec_deserialize_request(byte_array@),
    {
        let b = byte_array;
        if b[0] == 0xff {
            Request::A(
                AppendEntryRequest {
                    id: u32_from_be(b[4], b[5], b[6], b[7]) as usize,
                    term: u32_from_be(b[8], b[9], b[10], b[11]),
                    prev_log_index: u32_from_be(b[12], b[13], b[14], b[15]) as usize,
                    prev_log_term: u32_from_be(b[16], b[17], b[18], b[19]),
                    commit_index: u32_from_be(b[20], b[21], b[22], b[23]) as usize,
                    entry: if !(b[24] == 0 && b[25] == 0 && b[26] == 0 && b[27] == 0) {
                        Some(
                            (
                                u32_from_be(b[24], b[25], b[26], b[27]),
                                u32_from_be(b[28], b[29], b[30], b[31]),
                            ),
                        )
                    } else {
                        None
                    },
                },
            )
        } else {
            Request::V(
                VoteRequest {
                    id: u32_from_be(b[4], b[5], b[6], b[7]) as usize,
                    term: u32_from_be(b[8], b[9], b[10], b[11]),
                    last_log_index: u32_from_be(b[12], b[13], b[14], b[15]) as usize,
                    last_log_term: u32_from_be(b[16], b[17], b[18], b[19]),
                },
            )
        }
    }

    /// Decodes a 32-byte frame into a response.
    pub fn deserialize_response(byte_array: &Vec<u8>) -> (r: Response)
        requires
            byte_array@.len() == 32,
        ensures
            r == spec_deserialize_response(byte_array@),
    {
        let b = byte_array;
        if b[0] == 0xff {
            Response::A(
                AppendEntryResponse {
                    id: u32_from_be(b[4], b[5], b[6], b[7]) as usize,
                    term: u32_from_be(b[8], b[9], b[10], b[11]),
                    success: b[12] == 0xff,
                    match_index: u32_from_be(b[16], b[17], b[18], b[19]) as usize,
                },
            )
        } else {
            Response::V(
                VoteResponse {
                    id: u32_from_be(b[4], b[5], b[6], b[7]) as usize,
                    term: u32_from_be(b[8], b[9], b[10], b[11]),
                    granted: b[12] == 0xff,
                },
            )
        }
    }

    /// The listen address of replica `id`: 127.0.0.1 at port BASE_PORT + id.
    pub fn get_addr(id: usize) -> (r: String)
        requires
            id < N,
        ensures
            r@ == addr_spec(id as int),
    {
        let a: &str = if id == 0 {
            "127.0.0.1:7890"
        } else if id == 1 {
            "127.0.0.1:7891"
        } else if id == 2 {
            "127.0.0.1:7892"
        } else if id == 3 {
            "127.0.0.1:7893"
        } else {
            "127.0.0.1:7894"
        };
        a.to_owned()
    }
}

} // verus!
