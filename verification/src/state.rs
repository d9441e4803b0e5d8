//! The role state machine: a replica is a Leader, a Candidate or a Follower,
//! and each role carries its own bookkeeping. Leader-only data (`next_index`,
//! `match_index`) is unrepresentable in the other roles.

use vstd::prelude::*;

verus! {

/// Number of replicas in the fixed cluster.
pub const N: usize = 5;

/// Smallest number of replicas that forms a majority of the cluster.
pub const MAJORITY: usize = N / 2 + 1;

/// A replica's role and the data that travels with it.
///
/// - Leader: `next_index[p]` is the next log index to send to peer p;
///   `match_index[p]` is the highest index known replicated on p.
/// - Candidate: `voted_by[p]` is true once peer p granted this candidacy;
///   `attempts` counts full vote rounds without a majority.
/// - Follower: `voted_for` is the candidate granted a vote in the current
///   term; `heartbeat_received` is the election-timeout flag.
#[derive(Debug, PartialEq, Eq)]
pub enum State {
    Leader { next_index: Vec<usize>, match_index: Vec<usize> },
    Candidate { voted_by: Vec<bool>, attempts: u32 },
    Follower { voted_for: Option<usize>, heartbeat_received: bool },
}

/// The mathematical shape of a role: the same three variants over sequences.
#[verifier::ext_equal]
pub enum Role {
    Leader { next_index: Seq<usize>, match_index: Seq<usize> },
    Candidate { voted_by: Seq<bool>, attempts: u32 },
    Follower { voted_for: Option<usize>, heartbeat_received: bool },
}

impl View for State {
    type V = Role;

    open spec fn view(&self) -> Role {
        match self {
            State::Leader { next_index, match_index } => Role::Leader {
                next_index: next_index@,
                match_index: match_index@,
            },
            State::Candidate { voted_by, attempts } => Role::Candidate {
                voted_by: voted_by@,
                attempts: *attempts,
            },
            State::Follower { voted_for, heartbeat_received } => Role::Follower {
                voted_for: *voted_for,
                heartbeat_received: *heartbeat_received,
            },
        }
    }
}

impl Role {
    /// The per-role vectors always span the whole cluster.
    pub open spec fn wf(self) -> bool {
        match self {
            Role::Leader { next_index, match_index } => next_index.len() == N as int
                && match_index.len() == N as int,
            Role::Candidate { voted_by, attempts } => voted_by.len() == N as int,
            Role::Follower { .. } => true,
        }
    }
}

/// How many of the flags in `s` are set.
pub open spec fn count_true(s: Seq<bool>) -> int
    decreases s.len(),
{
    if s.len() == 0 {
        0
    } else {
        count_true(s.drop_last()) + (if s.last() {
            1int
        } else {
            0int
        })
    }
}

/// How many elements of `s` are at least `v`.
pub open spec fn count_geq(s: Seq<usize>, v: usize) -> int
    decreases s.len(),
{
    if s.len() == 0 {
        0
    } else {
        count_geq(s.drop_last(), v) + (if s.last() >= v {
            1int
        } else {
            0int
        })
    }
}

/// How many elements of `s` are strictly above `v`.
pub open spec fn count_gt(s: Seq<usize>, v: usize) -> int
    decreases s.len(),
{
    if s.len() == 0 {
        0
    } else {
        count_gt(s.drop_last(), v) + (if s.last() > v {
            1int
        } else {
            0int
        })
    }
}

/// `v` is the index a leader may commit to: it is one of the recorded match
/// indices, a majority of replicas have matched at least `v`, and no larger
/// index has that backing (so `v` is the lower median of the match indices).
pub open spec fn is_commit_point(s: Seq<usize>, v: usize) -> bool {
    &&& s.contains(v)
    &&& count_geq(s, v) >= MAJORITY as int
    &&& count_gt(s, v) < MAJORITY as int
}

/// The commit point of a match-index vector; unique by
/// `lemma_commit_point_unique`.
pub open spec fn commit_point(s: Seq<usize>) -> usize {
    choose|v: usize| is_commit_point(s, v)
}

/// Unfolds the counts over a five-element sequence into plain sums.
proof fn lemma_count5(s: Seq<usize>, v: usize)
    requires
        s.len() == 5,
    ensures
        count_geq(s, v) == (if s[0] >= v {
            1int
        } else {
            0int
        }) + (if s[1] >= v {
            1int
        } else {
            0int
        }) + (if s[2] >= v {
            1int
        } else {
            0int
        }) + (if s[3] >= v {
            1int
        } else {
            0int
        }) + (if s[4] >= v {
            1int
        } else {
            0int
        }),
        count_gt(s, v) == (if s[0] > v {
            1int
        } else {
            0int
        }) + (if s[1] > v {
            1int
        } else {
            0int
        }) + (if s[2] > v {
            1int
        } else {
            0int
        }) + (if s[3] > v {
            1int
        } else {
            0int
        }) + (if s[4] > v {
            1int
        } else {
            0int
        }),
{
    let s4 = s.drop_last();
    let s3 = s4.drop_last();
    let s2 = s3.drop_last();
    let s1 = s2.drop_last();
    let s0 = s1.drop_last();
    assert(count_geq(s, v) == count_geq(s4, v) + (if s[4] >= v {
        1int
    } else {
        0int
    }));
    assert(count_geq(s4, v) == count_geq(s3, v) + (if s[3] >= v {
        1int
    } else {
        0int
    }));
    assert(count_geq(s3, v) == count_geq(s2, v) + (if s[2] >= v {
        1int
    } else {
        0int
    }));
    assert(count_geq(s2, v) == count_geq(s1, v) + (if s[1] >= v {
        1int
    } else {
        0int
    }));
    assert(count_geq(s1, v) == count_geq(s0, v) + (if s[0] >= v {
        1int
    } else {
        0int
    }));
    assert(count_geq(s0, v) == 0);
    assert(count_gt(s, v) == count_gt(s4, v) + (if s[4] > v {
        1int
    } else {
        0int
    }));
    assert(count_gt(s4, v) == count_gt(s3, v) + (if s[3] > v {
        1int
    } else {
        0int
    }));
    assert(count_gt(s3, v) == count_gt(s2, v) + (if s[2] > v {
        1int
    } else {
        0int
    }));
    assert(count_gt(s2, v) == count_gt(s1, v) + (if s[1] > v {
        1int
    } else {
        0int
    }));
    assert(count_gt(s1, v) == count_gt(s0, v) + (if s[0] > v {
        1int
    } else {
        0int
    }));
    assert(count_gt(s0, v) == 0);
}

/// Every element at least `b` is strictly above any `a` below `b`.
proof fn lemma_count_gt_geq(s: Seq<usize>, a: usize, b: usize)
    requires
        a < b,
    ensures
        count_gt(s, a) >= count_geq(s, b),
    decreases s.len(),
{
    if s.len() > 0 {
        lemma_count_gt_geq(s.drop_last(), a, b);
    }
}

/// The commit point is unique: no two distinct values can both be backed by a
/// majority while leaving fewer than a majority above them.
pub proof fn lemma_commit_point_unique(s: Seq<usize>, v1: usize, v2: usize)
    requires
        is_commit_point(s, v1),
        is_commit_point(s, v2),
    ensures
        v1 == v2,
{
    if v1 < v2 {
        lemma_count_gt_geq(s, v1, v2);
    } else if v2 < v1 {
        lemma_count_gt_geq(s, v2, v1);
    }
}

/// A five-element match-index vector always has a commit point.
proof fn lemma_commit_point_exists(s: Seq<usize>)
    requires
        s.len() == 5,
    ensures
        exists|v: usize| is_commit_point(s, v),
{
    lemma_count5(s, s[0]);
    lemma_count5(s, s[1]);
    lemma_count5(s, s[2]);
    lemma_count5(s, s[3]);
    lemma_count5(s, s[4]);
    if count_geq(s, s[0]) >= MAJORITY as int && count_gt(s, s[0]) < MAJORITY as int {
        assert(s.contains(s[0]));
        assert(is_commit_point(s, s[0]));
    } else if count_geq(s, s[1]) >= MAJORITY as int && count_gt(s, s[1]) < MAJORITY as int {
        assert(s.contains(s[1]));
        assert(is_commit_point(s, s[1]));
    } else if count_geq(s, s[2]) >= MAJORITY as int && count_gt(s, s[2]) < MAJORITY as int {
        assert(s.contains(s[2]));
        assert(is_commit_point(s, s[2]));
    } else if count_geq(s, s[3]) >= MAJORITY as int && count_gt(s, s[3]) < MAJORITY as int {
        assert(s.contains(s[3]));
        assert(is_commit_point(s, s[3]));
    } else {
        assert(count_geq(s, s[4]) >= MAJORITY as int && count_gt(s, s[4]) < MAJORITY as int);
        assert(s.contains(s[4]));
        assert(is_commit_point(s, s[4]));
    }
}

/// How many elements of `v` are at least `x`.
fn count_at_least(v: &Vec<usize>, x: usize) -> (c: usize)
    ensures
        c as int == count_geq(v@, x),
        c <= v@.len(),
{
    let mut c: usize = 0;
    let mut j: usize = 0;
    while j < v.len()
        invariant
            j <= v@.len(),
            c <= j,
            c as int == count_geq(v@.take(j as int), x),
        decreases v@.len() - j,
    {
        if v[j] >= x {
            c = c + 1;
        }
        j = j + 1;
        proof {
            assert(v@.take(j as int).drop_last() =~= v@.take(j as int - 1));
        }
    }
    proof {
        assert(v@.take(v@.len() as int) =~= v@);
    }
    c
}

/// How many elements of `v` are strictly above `x`.
fn count_greater(v: &Vec<usize>, x: usize) -> (c: usize)
    ensures
        c as int == count_gt(v@, x),
        c <= v@.len(),
{
    let mut c: usize = 0;
    let mut j: usize = 0;
    while j < v.len()
        invariant
            j <= v@.len(),
            c <= j,
            c as int == count_gt(v@.take(j as int), x),
        decreases v@.len() - j,
    {
        if v[j] > x {
            c = c + 1;
        }
        j = j + 1;
        proof {
            assert(v@.take(j as int).drop_last() =~= v@.take(j as int - 1));
        }
    }
    proof {
        assert(v@.take(v@.len() as int) =~= v@);
    }
    c
}

impl State {
    /// Whether this replica currently leads.
    pub fn is_leader(&self) -> (r: bool)
        ensures
            r == (self@ is Leader),
    {
        if let Self::Leader { .. } = self {
            true
        } else {
            false
        }
    }

    /// The next log index to send to peer `i`; 1 outside the Leader role.
    pub fn get_next_index(&self, i: usize) -> (r: usize)
        requires
            self@ is Leader ==> i < self@->next_index.len(),
        ensures
            r == (if self@ is Leader {
                self@->next_index[i as int]
            } else {
                1usize
            }),
    {
        if let Self::Leader { next_index, .. } = self {
            next_index[i]
        } else {
            1
        }
    }

    /// Records the next log index to send to peer `i`; no effect outside the
    /// Leader role.
    pub fn set_next_index(&mut self, i: usize, v: usize)
        requires
            old(self)@ is Leader ==> i < old(self)@->next_index.len(),
        ensures
            old(self)@ is Leader ==> final(self)@ == (Role::Leader {
                next_index: old(self)@->next_index.update(i as int, v),
                match_index: old(self)@->match_index,
            }),
            !(old(self)@ is Leader) ==> *final(self) == *old(self),
    {
        if let Self::Leader { next_index, .. } = self {
            next_index[i] = v;
        }
    }

    /// Steps the next index for peer `i` back by one, never below 1; no effect
    /// outside the Leader role.
    pub fn decrement_next_index(&mut self, i: usize)
        requires
            old(self)@ is Leader ==> i < old(self)@->next_index.len(),
        ensures
            old(self)@ is Leader && old(self)@->next_index[i as int] > 1 ==> final(self)@
                == (Role::Leader {
                next_index: old(self)@->next_index.update(
                    i as int,
                    (old(self)@->next_index[i as int] - 1) as usize,
                ),
                match_index: old(self)@->match_index,
            }),
            !(old(self)@ is Leader && old(self)@->next_index[i as int] > 1) ==> *final(self)
                == *old(self),
    {
        if let Self::Leader { next_index, .. } = self {
            if next_index[i] > 1 {
                let stepped = next_index[i] - 1;
                next_index[i] = stepped;
            }
        }
    }

    /// Records the highest index known replicated on peer `i`; no effect
    /// outside the Leader role.
    pub fn set_match_index(&mut self, i: usize, v: usize)
        requires
            old(self)@ is Leader ==> i < old(self)@->match_index.len(),
        ensures
            old(self)@ is Leader ==> final(self)@ == (Role::Leader {
                next_index: old(self)@->next_index,
                match_index: old(self)@->match_index.update(i as int, v),
            }),
            !(old(self)@ is Leader) ==> *final(self) == *old(self),
    {
        if let Self::Leader { match_index, .. } = self {
            match_index[i] = v;
        }
    }

    /// The highest index a majority of replicas is known to have matched: the
    /// lower median of the match indices. 0 outside the Leader role.
    pub fn get_index_to_commit(&self) -> (r: usize)
        requires
            self@.wf(),
        ensures
            self@ is Leader ==> is_commit_point(self@->match_index, r),
            self@ is Leader ==> r == commit_point(self@->match_index),
            !(self@ is Leader) ==> r == 0,
    {
        if let Self::Leader { match_index, .. } = self {
            let ghost s = match_index@;
            let mut j: usize = 0;
            while j < N
                invariant
                    s == match_index@,
                    self@ is Leader,
                    self@->match_index == s,
                    s.len() == N as int,
                    j <= N,
                    forall|k: int| 0 <= k < j ==> !is_commit_point(s, s[k]),
                decreases N - j,
            {
                let x = match_index[j];
                let cg = count_at_least(match_index, x);
                let cgt = count_greater(match_index, x);
                if cg >= MAJORITY && cgt < MAJORITY {
                    proof {
                        assert(s[j as int] == x);
                        assert(s.contains(x));
                        assert(is_commit_point(s, x));
                        let w = commit_point(s);
                        assert(is_commit_point(s, w));
                        lemma_commit_point_unique(s, x, w);
                    }
                    return x;
                }
                proof {
                    assert(!is_commit_point(s, s[j as int]));
                }
                j = j + 1;
            }
            proof {
                lemma_commit_point_exists(s);
                let v = choose|v: usize| is_commit_point(s, v);
                let k = choose|k: int| 0 <= k < s.len() && s[k] == v;
                assert(0 <= k < s.len() && s[k] == v);
                assert(false);
            }
            0
        } else {
            0
        }
    }

    /// Whether this replica is currently campaigning.
    pub fn is_candidate(&self) -> (r: bool)
        ensures
            r == (self@ is Candidate),
    {
        if let Self::Candidate { .. } = self {
            true
        } else {
            false
        }
    }

    /// Records that peer `i` granted this candidacy; no effect outside the
    /// Candidate role.
    pub fn count_vote(&mut self, i: usize)
        requires
            old(self)@ is Candidate ==> i < old(self)@->voted_by.len(),
        ensures
            old(self)@ is Candidate ==> final(self)@ == (Role::Candidate {
                voted_by: old(self)@->voted_by.update(i as int, true),
                attempts: old(self)@->attempts,
            }),
            !(old(self)@ is Candidate) ==> *final(self) == *old(self),
    {
        if let Self::Candidate { voted_by, .. } = self {
            voted_by[i] = true;
        }
    }

    /// Whether the granted votes form a majority of the cluster. False
    /// outside the Candidate role.
    pub fn has_enough_votes(&self) -> (r: bool)
        ensures
            r == (self@ is Candidate && count_true(self@->voted_by) > (N / 2) as int),
    {
        if let Self::Candidate { voted_by, .. } = self {
            let mut c: usize = 0;
            let mut j: usize = 0;
            while j < voted_by.len()
                invariant
                    j <= voted_by@.len(),
                    c <= j,
                    c as int == count_true(voted_by@.take(j as int)),
                decreases voted_by@.len() - j,
            {
                if voted_by[j] {
                    c = c + 1;
                }
                j = j + 1;
                proof {
                    assert(voted_by@.take(j as int).drop_last() =~= voted_by@.take(j as int - 1));
                }
            }
            proof {
                assert(voted_by@.take(voted_by@.len() as int) =~= voted_by@);
            }
            c > N / 2
        } else {
            false
        }
    }

    /// How many full vote rounds this candidacy has run; 0 outside the
    /// Candidate role.
    pub fn get_vote_request_attempts(&self) -> (r: u32)
        ensures
            r == (if self@ is Candidate {
                self@->attempts
            } else {
                0u32
            }),
    {
        if let Self::Candidate { attempts, .. } = self {
            *attempts
        } else {
            0
        }
    }

    /// Counts one more vote round; no effect outside the Candidate role.
    pub fn increment_vote_request_attempts(&mut self)
        requires
            old(self)@ is Candidate ==> old(self)@->attempts < u32::MAX,
        ensures
            old(self)@ is Candidate ==> final(self)@ == (Role::Candidate {
                voted_by: old(self)@->voted_by,
                attempts: (old(self)@->attempts + 1) as u32,
            }),
            !(old(self)@ is Candidate) ==> *final(self) == *old(self),
    {
        if let Self::Candidate { attempts, .. } = self {
            *attempts = *attempts + 1;
        }
    }

    /// Starts the vote-round count over; no effect outside the Candidate role.
    pub fn reset_vote_request_attempts(&mut self)
        ensures
            old(self)@ is Candidate ==> final(self)@ == (Role::Candidate {
                voted_by: old(self)@->voted_by,
                attempts: 0u32,
            }),
            !(old(self)@ is Candidate) ==> *final(self) == *old(self),
    {
        if let Self::Candidate { attempts, .. } = self {
            *attempts = 0;
        }
    }

    /// Whether this replica currently follows.
    pub fn is_follower(&self) -> (r: bool)
        ensures
            r == (self@ is Follower),
    {
        if let Self::Follower { .. } = self {
            true
        } else {
            false
        }
    }

    /// Whether a valid leader message arrived since the election-timeout flag
    /// was last cleared. False outside the Follower role.
    pub fn heartbeat_received(&self) -> (r: bool)
        ensures
            r == (self@ matches Role::Follower { heartbeat_received, .. } && heartbeat_received),
    {
        if let Self::Follower { heartbeat_received, .. } = self {
            *heartbeat_received
        } else {
            false
        }
    }

    /// Clears the election-timeout flag; no effect outside the Follower role.
    pub fn unset_heartbeat_received(&mut self)
        ensures
            old(self)@ is Follower ==> final(self)@ == (Role::Follower {
                voted_for: old(self)@->voted_for,
                heartbeat_received: false,
            }),
            !(old(self)@ is Follower) ==> *final(self) == *old(self),
    {
        if let Self::Follower { heartbeat_received, .. } = self {
            *heartbeat_received = false;
        }
    }

    /// Whether this follower granted its current-term vote to candidate `i`.
    /// False outside the Follower role.
    pub fn voted_for(&self, i: usize) -> (r: bool)
        ensures
            r == (self@ matches Role::Follower { voted_for: Some(v), .. } && v == i),
    {
        if let Self::Follower { voted_for: Some(v), .. } = self {
            *v == i
        } else {
            false
        }
    }
}

} // verus!
