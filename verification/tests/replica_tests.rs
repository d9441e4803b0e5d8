use raft_core::replica::{jitter_next, Raft};
use raft_core::state::State;
use raft_core::wire::{
    AppendEntryRequest, AppendEntryResponse, Request, Response, VoteRequest, VoteResponse,
};

fn follower(id: usize, term: u32, voted_for: Option<usize>, log: Vec<(u32, u32)>) -> Raft {
    Raft {
        id,
        state: State::Follower { voted_for, heartbeat_received: true },
        term,
        log,
        commit_index: 0,
    }
}

#[test]
fn fresh_replica_starts_as_follower() {
    let r = Raft::new(3);
    assert_eq!(r.id, 3);
    assert_eq!(r.term, 0);
    assert_eq!(r.log, vec![(0, 0)]);
    assert_eq!(r.commit_index, 0);
    assert!(matches!(r.state, State::Follower { voted_for: None, heartbeat_received: true }));
}

#[test]
fn heartbeat_is_accepted_and_sets_the_flag() {
    let mut r = follower(1, 1, Some(0), vec![(0, 0)]);
    if let State::Follower { heartbeat_received, .. } = &mut r.state {
        *heartbeat_received = false;
    }
    let res = r.handle_request(Request::A(AppendEntryRequest {
        id: 0,
        term: 1,
        prev_log_index: 0,
        prev_log_term: 0,
        entry: None,
        commit_index: 0,
    }));
    assert_eq!(
        res,
        Response::A(AppendEntryResponse { id: 1, term: 1, success: true, match_index: 0 })
    );
    assert!(matches!(
        r.state,
        State::Follower { voted_for: Some(0), heartbeat_received: true }
    ));
}

#[test]
fn append_with_older_term_is_rejected() {
    let mut r = follower(1, 5, None, vec![(0, 0)]);
    let res = r.handle_request(Request::A(AppendEntryRequest {
        id: 0,
        term: 4,
        prev_log_index: 0,
        prev_log_term: 0,
        entry: None,
        commit_index: 0,
    }));
    assert_eq!(
        res,
        Response::A(AppendEntryResponse { id: 1, term: 5, success: false, match_index: 0 })
    );
    assert_eq!(r.term, 5);
}

#[test]
fn append_with_mismatched_prev_is_rejected_but_steps_down() {
    let mut r = follower(1, 1, None, vec![(0, 0), (1, 9)]);
    let res = r.handle_request(Request::A(AppendEntryRequest {
        id: 0,
        term: 2,
        prev_log_index: 1,
        prev_log_term: 2,
        entry: None,
        commit_index: 0,
    }));
    assert_eq!(
        res,
        Response::A(AppendEntryResponse { id: 1, term: 2, success: false, match_index: 0 })
    );
    assert_eq!(r.term, 2);
    assert_eq!(r.log, vec![(0, 0), (1, 9)]);
}

#[test]
fn append_advances_commit_capped_by_log_end() {
    let mut r = follower(2, 1, None, vec![(0, 0), (1, 9)]);
    r.handle_request(Request::A(AppendEntryRequest {
        id: 0,
        term: 1,
        prev_log_index: 1,
        prev_log_term: 1,
        entry: None,
        commit_index: 7,
    }));
    assert_eq!(r.commit_index, 1);
}

// S5: a matching append overwrites the slot just past prev_log_index; the
// stale tail past that slot is left in place (one entry travels per RPC).
#[test]
fn log_rewind_overwrites_conflicting_entry() {
    let mut r = follower(1, 1, None, vec![(0, 0), (1, 0xa), (1, 0xb)]);
    let res = r.handle_request(Request::A(AppendEntryRequest {
        id: 0,
        term: 2,
        prev_log_index: 0,
        prev_log_term: 0,
        entry: Some((2, 0xc)),
        commit_index: 0,
    }));
    assert_eq!(
        res,
        Response::A(AppendEntryResponse { id: 1, term: 2, success: true, match_index: 1 })
    );
    assert_eq!(r.log[0], (0, 0));
    assert_eq!(r.log[1], (2, 0xc));
    assert_eq!(r.log, vec![(0, 0), (2, 0xc), (1, 0xb)]);
}

// S6: a vote request from a candidate with a staler log is denied; the term
// still advances and the recorded vote stays.
#[test]
fn vote_denied_by_log_freshness() {
    let mut r = follower(1, 5, Some(3), vec![(0, 0), (5, 0x58)]);
    let res = r.handle_request(Request::V(VoteRequest {
        id: 2,
        term: 6,
        last_log_index: 0,
        last_log_term: 0,
    }));
    assert_eq!(res, Response::V(VoteResponse { id: 1, term: 6, granted: false }));
    assert_eq!(r.term, 6);
    assert!(matches!(r.state, State::Follower { voted_for: Some(3), .. }));
}

#[test]
fn vote_granted_to_fresh_candidate_and_regranted() {
    let mut r = follower(1, 1, None, vec![(0, 0)]);
    let req = Request::V(VoteRequest { id: 3, term: 2, last_log_index: 0, last_log_term: 0 });
    assert_eq!(r.handle_request(req), Response::V(VoteResponse { id: 1, term: 2, granted: true }));
    assert!(matches!(r.state, State::Follower { voted_for: Some(3), .. }));
    // idempotent re-grant in the same term
    assert_eq!(r.handle_request(req), Response::V(VoteResponse { id: 1, term: 2, granted: true }));
    // a different candidate in the same term is denied
    let other = Request::V(VoteRequest { id: 4, term: 2, last_log_index: 0, last_log_term: 0 });
    assert_eq!(
        r.handle_request(other),
        Response::V(VoteResponse { id: 1, term: 2, granted: false })
    );
    assert!(matches!(r.state, State::Follower { voted_for: Some(3), .. }));
}

#[test]
fn propose_injection_appends_locally() {
    let mut r = follower(1, 1, None, vec![(0, 0)]);
    let res = r.handle_request(Request::A(AppendEntryRequest {
        id: 0xffff_ffff,
        term: 0,
        prev_log_index: 0,
        prev_log_term: 0,
        entry: Some((1, 7)),
        commit_index: 0,
    }));
    assert_eq!(
        res,
        Response::A(AppendEntryResponse { id: 1, term: 1, success: true, match_index: 0 })
    );
    assert_eq!(r.log, vec![(0, 0), (1, 7)]);
    // without an entry the injection is a no-op and fails
    let res = r.handle_request(Request::A(AppendEntryRequest {
        id: 0xffff_ffff,
        term: 0,
        prev_log_index: 0,
        prev_log_term: 0,
        entry: None,
        commit_index: 0,
    }));
    assert_eq!(
        res,
        Response::A(AppendEntryResponse { id: 1, term: 1, success: false, match_index: 0 })
    );
    assert_eq!(r.log, vec![(0, 0), (1, 7)]);
}

#[test]
fn commit_index_never_decreases() {
    let mut r = follower(2, 1, None, vec![(0, 0), (1, 9), (1, 8)]);
    r.commit_index = 2;
    r.handle_request(Request::A(AppendEntryRequest {
        id: 0,
        term: 1,
        prev_log_index: 1,
        prev_log_term: 1,
        entry: None,
        commit_index: 0,
    }));
    assert_eq!(r.commit_index, 2);
}

#[test]
fn term_never_decreases_across_handlers() {
    let mut r = follower(1, 4, None, vec![(0, 0)]);
    r.handle_request(Request::V(VoteRequest { id: 0, term: 1, last_log_index: 0, last_log_term: 0 }));
    assert_eq!(r.term, 4);
    r.handle_request(Request::A(AppendEntryRequest {
        id: 0,
        term: 2,
        prev_log_index: 0,
        prev_log_term: 0,
        entry: None,
        commit_index: 0,
    }));
    assert_eq!(r.term, 4);
    let dropped = r.accept_response(Response::A(AppendEntryResponse {
        id: 0,
        term: 1,
        success: false,
        match_index: 0,
    }));
    assert_eq!(dropped, Some(false));
    assert_eq!(r.term, 4);
}

#[test]
fn state_accessors_mirror_the_role() {
    let mut s = State::Candidate { voted_by: vec![false; 5], attempts: 0 };
    assert!(s.is_candidate());
    assert!(!s.is_leader());
    assert!(!s.is_follower());
    assert!(!s.has_enough_votes());
    s.count_vote(0);
    s.count_vote(3);
    assert!(!s.has_enough_votes());
    s.count_vote(4);
    assert!(s.has_enough_votes());
    s.increment_vote_request_attempts();
    assert_eq!(s.get_vote_request_attempts(), 1);
    s.reset_vote_request_attempts();
    assert_eq!(s.get_vote_request_attempts(), 0);
}

#[test]
fn commit_median_is_the_majority_backed_index() {
    let s = State::Leader { next_index: vec![2; 5], match_index: vec![1, 4, 2, 5, 3] };
    assert_eq!(s.get_index_to_commit(), 3);
    let s = State::Leader { next_index: vec![2; 5], match_index: vec![0, 0, 1, 1, 1] };
    assert_eq!(s.get_index_to_commit(), 1);
    let s = State::Leader { next_index: vec![2; 5], match_index: vec![7, 0, 0, 7, 0] };
    assert_eq!(s.get_index_to_commit(), 0);
    let s = State::Follower { voted_for: None, heartbeat_received: true };
    assert_eq!(s.get_index_to_commit(), 0);
}

#[test]
fn next_index_decrement_floors_at_one() {
    let mut s = State::Leader { next_index: vec![2, 1, 2, 2, 2], match_index: vec![0; 5] };
    s.decrement_next_index(0);
    s.decrement_next_index(1);
    assert_eq!(s.get_next_index(0), 1);
    assert_eq!(s.get_next_index(1), 1);
}

#[test]
fn malformed_responses_are_dropped() {
    let mut r = Raft {
        id: 0,
        state: State::Leader { next_index: vec![2; 5], match_index: vec![0; 5] },
        term: 1,
        log: vec![(0, 0), (1, 7)],
        commit_index: 0,
    };
    // peer id outside the cluster
    let dropped = r.accept_response(Response::A(AppendEntryResponse {
        id: 9,
        term: 1,
        success: true,
        match_index: 1,
    }));
    assert_eq!(dropped, None);
    // match index outside the log
    let dropped = r.accept_response(Response::A(AppendEntryResponse {
        id: 2,
        term: 1,
        success: true,
        match_index: 5,
    }));
    assert_eq!(dropped, None);
    assert_eq!(r.commit_index, 0);
}

#[test]
fn newer_term_response_steps_the_leader_down() {
    let mut r = Raft {
        id: 0,
        state: State::Leader { next_index: vec![2; 5], match_index: vec![0; 5] },
        term: 1,
        log: vec![(0, 0), (1, 7)],
        commit_index: 0,
    };
    let retry = r.accept_response(Response::A(AppendEntryResponse {
        id: 2,
        term: 3,
        success: false,
        match_index: 0,
    }));
    assert_eq!(retry, Some(false));
    assert_eq!(r.term, 3);
    assert!(matches!(r.state, State::Follower { voted_for: None, heartbeat_received: true }));
}

#[test]
fn failed_append_response_backs_off_and_retries() {
    let mut r = Raft {
        id: 0,
        state: State::Leader { next_index: vec![3; 5], match_index: vec![0; 5] },
        term: 2,
        log: vec![(0, 0), (1, 7), (2, 8)],
        commit_index: 0,
    };
    let retry = r.accept_response(Response::A(AppendEntryResponse {
        id: 4,
        term: 2,
        success: false,
        match_index: 0,
    }));
    assert_eq!(retry, Some(true));
    assert_eq!(r.state.get_next_index(4), 2);
}

#[test]
fn jitter_sequence_matches_the_generator() {
    let mut w: u32 = 1; // seed for replica 0
    w = jitter_next(w);
    assert_eq!(w, 20);
    w = jitter_next(w);
    assert_eq!(w, (20 * 997) % 977);
    assert!(w < 977);
}
