use raft_core::replica::{DriverPlan, Raft};
use raft_core::state::State;
use raft_core::wire::{AppendEntryRequest, Request, Response, VoteRequest};

fn new_cluster() -> Vec<Raft> {
    let mut cluster = Vec::new();
    for id in 0..5 {
        cluster.push(Raft::new(id));
    }
    cluster
}

/// Carries one request over the wire to a replica and its response back.
fn deliver_request(to: &mut Raft, req: Request) -> Response {
    let frame = Raft::serialize_request(req);
    assert_eq!(frame.len(), 32);
    let decoded = Raft::deserialize_request(&frame);
    let res = to.handle_request(decoded);
    let frame = Raft::serialize_response(res);
    assert_eq!(frame.len(), 32);
    Raft::deserialize_response(&frame)
}

/// Runs driver passes on `candidate_id` until it solicits votes, then delivers
/// them to the replicas in `live` and folds the responses back in.
fn run_election(cluster: &mut Vec<Raft>, candidate_id: usize, live: &[usize]) {
    // first pass clears the timeout flag, the next one opens the candidacy
    let plan = cluster[candidate_id].driver_pass();
    let votes: Vec<(usize, VoteRequest)> = match plan {
        DriverPlan::Standby => match cluster[candidate_id].driver_pass() {
            DriverPlan::Solicit { votes } => votes,
            other => panic!("expected a vote round, got {:?}", other),
        },
        DriverPlan::Solicit { votes } => votes,
        other => panic!("expected a vote round, got {:?}", other),
    };
    assert_eq!(votes.len(), 4);
    for (p, req) in votes {
        if live.contains(&p) {
            let res = deliver_request(&mut cluster[p], Request::V(req));
            cluster[candidate_id].accept_response(res);
        }
    }
}

/// Runs one leader heartbeat fan-out, delivering to the replicas in `live`.
fn run_heartbeats(cluster: &mut Vec<Raft>, leader_id: usize, live: &[usize]) {
    let plan = cluster[leader_id].driver_pass();
    let appends: Vec<(usize, AppendEntryRequest)> = match plan {
        DriverPlan::Replicate { appends } => appends,
        other => panic!("expected a heartbeat fan-out, got {:?}", other),
    };
    assert_eq!(appends.len(), 4);
    for (p, req) in appends {
        if live.contains(&p) {
            let res = deliver_request(&mut cluster[p], Request::A(req));
            cluster[leader_id].accept_response(res);
        }
    }
}

fn count_leaders(cluster: &Vec<Raft>) -> usize {
    let mut leaders = 0;
    for r in cluster {
        if r.state.is_leader() {
            leaders += 1;
        }
    }
    leaders
}

// S1 (N=5 analogue): with three live replicas, the self-vote plus two grants
// already form a majority and the candidate becomes leader within one pass.
#[test]
fn election_with_three_live_replicas() {
    let mut cluster = new_cluster();
    run_election(&mut cluster, 0, &[1, 2]);
    assert!(cluster[0].state.is_leader());
    assert_eq!(cluster[0].term, 1);
}

// S2: clean majority election with every replica live: exactly one leader for
// term 1, every other replica follows it with its vote recorded.
#[test]
fn clean_majority_election() {
    let mut cluster = new_cluster();
    run_election(&mut cluster, 0, &[1, 2, 3, 4]);
    assert!(cluster[0].state.is_leader());
    run_heartbeats(&mut cluster, 0, &[1, 2, 3, 4]);
    assert_eq!(count_leaders(&cluster), 1);
    for p in 1..5 {
        assert_eq!(cluster[p].term, 1);
        assert!(matches!(
            cluster[p].state,
            State::Follower { voted_for: Some(0), heartbeat_received: true }
        ));
    }
}

// S3: a local propose frame appends on the leader; within two heartbeat
// cycles every log holds [(0,0),(1,7)] and every commit index reaches 1.
#[test]
fn propose_replicates_and_commits() {
    let mut cluster = new_cluster();
    run_election(&mut cluster, 0, &[1, 2, 3, 4]);
    assert!(cluster[0].state.is_leader());

    let mut frame: Vec<u8> = vec![0xff; 24];
    frame.extend_from_slice(&[0x00, 0x00, 0x00, 0x01]);
    frame.extend_from_slice(&[0x00, 0x00, 0x00, 0x07]);
    let propose = Raft::deserialize_request(&frame);
    match propose {
        Request::A(a) => {
            assert_eq!(a.id, 0xffff_ffff);
            assert_eq!(a.entry, Some((1, 7)));
        },
        Request::V(_) => panic!("propose frame decoded as a vote"),
    }
    cluster[0].handle_request(propose);
    assert_eq!(cluster[0].log, vec![(0, 0), (1, 7)]);

    run_heartbeats(&mut cluster, 0, &[1, 2, 3, 4]);
    run_heartbeats(&mut cluster, 0, &[1, 2, 3, 4]);
    for p in 0..5 {
        assert_eq!(cluster[p].log, vec![(0, 0), (1, 7)], "log of replica {}", p);
        assert_eq!(cluster[p].commit_index, 1, "commit index of replica {}", p);
    }
}

// S4: when the leader's outbound traffic is dropped, a follower times out and
// wins the next term among the surviving majority; the old leader stays
// leader locally until a higher-term message arrives, then steps down.
#[test]
fn leader_partition_elects_a_successor() {
    let mut cluster = new_cluster();
    run_election(&mut cluster, 0, &[1, 2, 3, 4]);
    run_heartbeats(&mut cluster, 0, &[1, 2, 3, 4]);
    assert!(cluster[0].state.is_leader());

    // replica 1 sees no heartbeat across a pass and campaigns for term 2;
    // the old leader's responses are dropped with the rest of its outbound
    run_election(&mut cluster, 1, &[2, 3, 4]);
    assert!(cluster[1].state.is_leader());
    assert_eq!(cluster[1].term, 2);
    assert!(cluster[0].state.is_leader(), "old leader has seen nothing newer yet");

    // the first heartbeat of the new leader reaches the old one
    run_heartbeats(&mut cluster, 1, &[0, 2, 3, 4]);
    assert!(cluster[0].state.is_follower());
    assert_eq!(cluster[0].term, 2);
    assert_eq!(count_leaders(&cluster), 1);
}

// P8 as a scenario: a follower that hears nothing is a candidate within two
// passes; five fruitless vote rounds restart the candidacy with a fresh term.
#[test]
fn follower_times_out_then_candidacy_restarts() {
    let mut r = Raft::new(2);
    assert!(matches!(r.driver_pass(), DriverPlan::Standby));
    assert!(matches!(r.driver_pass(), DriverPlan::Solicit { .. }));
    assert!(r.state.is_candidate());
    assert_eq!(r.term, 1);
    assert_eq!(r.state.get_vote_request_attempts(), 1);
    for _ in 0..4 {
        assert!(matches!(r.driver_pass(), DriverPlan::Solicit { .. }));
    }
    assert!(r.state.is_candidate());
    assert_eq!(r.term, 2, "the candidacy restarted with a fresh term");
    assert_eq!(r.state.get_vote_request_attempts(), 0);
}

// The heartbeat fan-out carries the entry each peer needs next, attested by
// the entry before it.
#[test]
fn heartbeat_requests_follow_next_index() {
    let mut cluster = new_cluster();
    run_election(&mut cluster, 0, &[1, 2, 3, 4]);
    cluster[0].handle_request(Request::A(AppendEntryRequest {
        id: 0xffff_ffff,
        term: 0,
        prev_log_index: 0,
        prev_log_term: 0,
        entry: Some((1, 7)),
        commit_index: 0,
    }));
    let plan = cluster[0].driver_pass();
    match plan {
        DriverPlan::Replicate { appends } => {
            assert_eq!(appends.len(), 4);
            let mut expected_peer = 1;
            for (p, req) in appends {
                assert_eq!(p, expected_peer);
                expected_peer += 1;
                assert_eq!(req.id, 0);
                assert_eq!(req.term, 1);
                assert_eq!(req.prev_log_index, 0);
                assert_eq!(req.prev_log_term, 0);
                assert_eq!(req.entry, Some((1, 7)));
            }
        },
        other => panic!("expected a heartbeat fan-out, got {:?}", other),
    }
}
