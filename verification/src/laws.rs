//! The quantified laws of the replica, stated over the model transitions of
//! `replica` and proved once and for all. Term and commit-index monotonicity
//! are stated directly on the handlers' contracts; the laws here relate
//! several calls or several replicas.

use crate::replica::{
    after_append, after_request, after_response, after_tick, after_vote, grants_vote,
    leader_model, Model, PROPOSE_ID,
};
use crate::state::{count_true, Role, N};
use crate::wire::{AppendEntryRequest, Request, Response, VoteRequest};
use vstd::prelude::*;

verus! {

/// The replica after handling a run of requests, one after the other.
pub open spec fn after_requests(m: Model, reqs: Seq<Request>) -> Model
    decreases reqs.len(),
{
    if reqs.len() == 0 {
        m
    } else {
        after_requests(after_request(m, reqs[0]), reqs.drop_first())
    }
}

/// The vote commitment a grant leaves behind: the term is at least `t`, and
/// while it is still exactly `t` the replica follows with its vote bound to
/// candidate `c`.
pub open spec fn committed_to(m: Model, t: u32, c: usize) -> bool {
    &&& m.term >= t
    &&& (m.term == t ==> (m.role matches Role::Follower { voted_for: Some(v), .. } && v == c))
}

/// Whether a request is unable to rebind a vote commitment to candidate `c`
/// at term `t`. Every vote request and every propose injection is; the one
/// message that can rebind it is an AppendEntries carrying exactly term `t`
/// from a sender other than `c` — that sender is the term's leader, and
/// accepting it re-points `voted_for` at the leader.
pub open spec fn keeps_commitment(r: Request, t: u32, c: usize) -> bool {
    r matches Request::A(a) ==> (a.id == PROPOSE_ID || a.term != t || a.id == c)
}

/// A granted vote leaves the voter at the candidate's term with its vote
/// bound to that candidate.
proof fn lemma_grant_shape(m: Model, v: VoteRequest)
    requires
        grants_vote(m, v),
    ensures
        after_vote(m, v).term == v.term,
        committed_to(after_vote(m, v), v.term, v.id),
{
}

/// Handling one more vote request keeps a vote commitment, and can grant a
/// vote at the committed term only to the committed candidate.
proof fn lemma_vote_keeps_commitment(m: Model, v: VoteRequest, t: u32, c: usize)
    requires
        committed_to(m, t, c),
    ensures
        committed_to(after_vote(m, v), t, c),
        grants_vote(m, v) && v.term == t ==> v.id == c,
{
}

/// Handling an AppendEntries request keeps a vote commitment unless the
/// request is the excluded rebinding message.
proof fn lemma_append_keeps_commitment(m: Model, a: AppendEntryRequest, t: u32, c: usize)
    requires
        committed_to(m, t, c),
        keeps_commitment(Request::A(a), t, c),
    ensures
        committed_to(after_append(m, a), t, c),
{
}

/// One handled request of either kind keeps a vote commitment.
proof fn lemma_request_keeps_commitment(m: Model, r: Request, t: u32, c: usize)
    requires
        committed_to(m, t, c),
        keeps_commitment(r, t, c),
    ensures
        committed_to(after_request(m, r), t, c),
{
    match r {
        Request::A(a) => lemma_append_keeps_commitment(m, a, t, c),
        Request::V(v) => lemma_vote_keeps_commitment(m, v, t, c),
    }
}

/// A whole run of handled requests keeps a vote commitment.
proof fn lemma_requests_keep_commitment(m: Model, reqs: Seq<Request>, t: u32, c: usize)
    requires
        committed_to(m, t, c),
        forall|k: int| 0 <= k < reqs.len() ==> keeps_commitment(#[trigger] reqs[k], t, c),
    ensures
        committed_to(after_requests(m, reqs), t, c),
    decreases reqs.len(),
{
    if reqs.len() > 0 {
        lemma_request_keeps_commitment(m, reqs[0], t, c);
        assert forall|k: int|
            0 <= k < reqs.drop_first().len() implies keeps_commitment(
            #[trigger] reqs.drop_first()[k],
            t,
            c,
        ) by {
            assert(reqs.drop_first()[k] == reqs[k + 1]);
        }
        lemma_requests_keep_commitment(after_request(m, reqs[0]), reqs.drop_first(), t, c);
    }
}

/// Splitting a run of requests splits the fold.
proof fn lemma_after_requests_append(m: Model, s1: Seq<Request>, s2: Seq<Request>)
    ensures
        after_requests(m, s1 + s2) == after_requests(after_requests(m, s1), s2),
    decreases s1.len(),
{
    if s1.len() == 0 {
        assert(s1 + s2 =~= s2);
    } else {
        assert((s1 + s2).drop_first() =~= s1.drop_first() + s2);
        assert((s1 + s2)[0] == s1[0]);
        lemma_after_requests_append(after_request(m, s1[0]), s1.drop_first(), s2);
    }
}

/// Single vote per term: across any run of handled requests, two vote grants
/// in the same term go to the same candidate id (a re-grant to that id is
/// allowed and changes nothing). The one excluded run is an AppendEntries
/// between the two grants, accepted at exactly that term from a third
/// replica: that message is the term's leader re-claiming the vote, and it
/// re-points `voted_for` at the leader.
pub proof fn lemma_single_vote_per_term(
    m: Model,
    reqs: Seq<Request>,
    i: int,
    j: int,
    vi: VoteRequest,
    vj: VoteRequest,
)
    requires
        0 <= i <= j < reqs.len(),
        reqs[i] == Request::V(vi),
        reqs[j] == Request::V(vj),
        grants_vote(after_requests(m, reqs.take(i)), vi),
        grants_vote(after_requests(m, reqs.take(j)), vj),
        vi.term == vj.term,
        forall|k: int| i < k < j ==> keeps_commitment(#[trigger] reqs[k], vi.term, vi.id),
    ensures
        vi.id == vj.id,
{
    if i == j {
        return ;
    }
    let t = vi.term;
    let c = vi.id;
    let state_i = after_requests(m, reqs.take(i));
    let granted = after_vote(state_i, vi);
    lemma_grant_shape(state_i, vi);
    assert(reqs.take(i + 1) =~= reqs.take(i) + seq![reqs[i]]);
    lemma_after_requests_append(m, reqs.take(i), seq![reqs[i]]);
    assert(seq![reqs[i]].drop_first() =~= Seq::<Request>::empty());
    assert(after_requests(granted, Seq::<Request>::empty()) == granted);
    assert(after_requests(state_i, seq![reqs[i]]) == after_requests(
        after_request(state_i, seq![reqs[i]][0]),
        seq![reqs[i]].drop_first(),
    ));
    assert(after_requests(m, reqs.take(i + 1)) == granted);
    let mid = reqs.subrange(i + 1, j);
    assert(reqs.take(j) =~= reqs.take(i + 1) + mid);
    lemma_after_requests_append(m, reqs.take(i + 1), mid);
    let state_j = after_requests(m, reqs.take(j));
    assert forall|k: int| 0 <= k < mid.len() implies keeps_commitment(#[trigger] mid[k], t, c) by {
        assert(mid[k] == reqs[i + 1 + k]);
    }
    lemma_requests_keep_commitment(granted, mid, t, c);
    assert(committed_to(state_j, t, c));
    lemma_vote_keeps_commitment(state_j, vj, t, c);
}

/// Two sets of flags that together outnumber the slots share a set slot.
proof fn lemma_count_sum_intersect(a: Seq<bool>, b: Seq<bool>)
    requires
        a.len() == b.len(),
        count_true(a) + count_true(b) > a.len(),
    ensures
        exists|i: int| 0 <= i < a.len() && a[i] && b[i],
    decreases a.len(),
{
    if a.len() == 0 {
        assert(false);
    } else if a.last() && b.last() {
        assert(a[a.len() - 1] && b[a.len() - 1]);
    } else {
        lemma_count_sum_intersect(a.drop_last(), b.drop_last());
        let i = choose|i: int|
            0 <= i < a.drop_last().len() && a.drop_last()[i] && b.drop_last()[i];
        assert(a[i] && b[i]);
    }
}

/// Two majorities of the cluster share a replica.
pub proof fn lemma_majorities_intersect(a: Seq<bool>, b: Seq<bool>)
    requires
        a.len() == N as int,
        b.len() == N as int,
        2 * count_true(a) > N as int,
        2 * count_true(b) > N as int,
    ensures
        exists|i: int| 0 <= i < N as int && a[i] && b[i],
{
    lemma_count_sum_intersect(a, b);
}

/// A candidacy turns into leadership only on a granted vote that completes a
/// majority tally: the tie between a replica's own transition and the
/// majority hypothesis of the election-safety law.
pub proof fn lemma_leadership_needs_majority(m: Model, res: Response)
    requires
        m.role is Candidate,
        after_response(m, res).role is Leader,
    ensures
        (res matches Response::V(v) && v.granted && 2 * count_true(
            m.role->voted_by.update(v.id as int, true),
        ) > N as int),
{
}

/// Election safety: two candidacies that each tallied votes from a majority
/// of the cluster in the same term belong to the same candidate. The
/// single-vote law is what entitles each replica to one granted candidate per
/// term, rendered here as the map from a voter to that candidate.
pub proof fn lemma_election_safety(
    va: Seq<bool>,
    vb: Seq<bool>,
    ca: usize,
    cb: usize,
    granted_in_term: Map<int, usize>,
)
    requires
        va.len() == N as int,
        vb.len() == N as int,
        2 * count_true(va) > N as int,
        2 * count_true(vb) > N as int,
        forall|p: int|
            0 <= p < N as int && #[trigger] va[p] ==> granted_in_term.contains_key(p)
                && granted_in_term[p] == ca,
        forall|p: int|
            0 <= p < N as int && #[trigger] vb[p] ==> granted_in_term.contains_key(p)
                && granted_in_term[p] == cb,
    ensures
        ca == cb,
{
    lemma_majorities_intersect(va, vb);
    let p = choose|p: int| 0 <= p < N as int && va[p] && vb[p];
    assert(va[p] && vb[p]);
}

/// The part of log matching a single replica shows: handling an
/// AppendEntries request never shortens the log and never changes an entry
/// at or before the request's previous index — an accepted entry lands just
/// past it, and a propose injection only appends.
pub proof fn lemma_append_preserves_prefix(m: Model, a: AppendEntryRequest, i: int)
    requires
        m.wf(),
        0 <= i < m.log.len(),
        i <= a.prev_log_index as int || a.id == PROPOSE_ID,
    ensures
        after_append(m, a).log.len() >= m.log.len(),
        after_append(m, a).log[i] == m.log[i],
{
}

/// A leader tracks itself as fully replicated: its own next index sits at the
/// end of its log and its own match index just before it.
pub open spec fn leader_self_indices(m: Model) -> bool {
    m.role matches Role::Leader { next_index, match_index } ==> (next_index[m.id as int] as int
        == m.log.len() && match_index[m.id as int] as int == m.log.len() - 1)
}

/// Winning an election establishes the leader self-indices invariant.
pub proof fn lemma_election_establishes_self_indices(m: Model)
    requires
        m.wf(),
        m.log.len() <= usize::MAX,
    ensures
        leader_self_indices(leader_model(m)),
{
}

/// Handling any request keeps the leader self-indices invariant: a propose
/// injection moves both indices along with the log, and everything else
/// either leaves them alone or leaves the Leader role.
pub proof fn lemma_request_keeps_self_indices(m: Model, req: Request)
    requires
        m.wf(),
        m.log.len() < usize::MAX,
        leader_self_indices(m),
    ensures
        leader_self_indices(after_request(m, req)),
{
}

/// Folding in a response keeps the leader self-indices invariant, given that
/// it names a peer other than the replica itself (a response naming an id
/// outside the cluster is dropped before it is folded in).
pub proof fn lemma_response_keeps_self_indices(m: Model, res: Response)
    requires
        m.wf(),
        m.log.len() <= usize::MAX,
        leader_self_indices(m),
        res matches Response::A(a) ==> a.id != m.id && a.id < N,
    ensures
        leader_self_indices(after_response(m, res)),
{
}

/// A driver pass keeps the leader self-indices invariant.
pub proof fn lemma_tick_keeps_self_indices(m: Model)
    requires
        m.wf(),
        leader_self_indices(m),
    ensures
        leader_self_indices(after_tick(m)),
{
}

/// Timeout liveness: a follower that receives no heartbeat is a candidate
/// within two driver passes — the first pass at worst clears the timeout
/// flag, the next one opens the candidacy.
pub proof fn lemma_timeout_liveness(m: Model)
    requires
        m.role is Follower,
    ensures
        after_tick(after_tick(m)).role is Candidate,
{
}

} // verus!
