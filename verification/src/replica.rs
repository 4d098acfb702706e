use vstd::prelude::*;

use crate::message::{Entry, EntryState, Message, ReplicaID, Transition};

verus! {

/// Role of a replica in the cluster.
#[derive(Clone, Copy, PartialEq, Eq, Structural, Debug)]
pub enum State {
    Follower,
    Candidate,
    Leader,
}

/// What the replica remembers of its current snapshot: the last absolute
/// index the snapshot covers and the term of the entry at that index. The
/// snapshot's payload is owned by the user's state machine.
#[derive(Clone, Copy, PartialEq, Eq, Structural, Debug)]
pub struct Snapshot {
    pub last_included_index: u64,
    pub last_included_term: u64,
}

/// An effect the replica asks its collaborators to carry out. The replica
/// owns no I/O; a driver performs each action in order: sends go to the
/// cluster transport, the rest go to the user's state machine.
#[derive(Clone, Debug)]
pub enum Action {
    /// Enqueue `message` for delivery to peer `peer_id`.
    SendMessage { peer_id: ReplicaID, message: Message },
    /// Tell the cluster who the current leader is, or that none is known.
    RegisterLeader { leader_id: Option<ReplicaID> },
    /// Apply `transition` to the user's state machine.
    ApplyTransition { transition: Transition },
    /// Report the lifecycle state of the transition named by `transition_id`.
    RegisterTransitionState { transition_id: u64, state: EntryState },
    /// Ask the state machine to build a snapshot of everything applied up to
    /// and including `last_included_index`.
    CreateSnapshot { last_included_index: u64, last_included_term: u64 },
}

/// The local instance of the consensus algorithm. All protocol decisions are
/// made here, on plain values; waiting, timing and delivery belong to the
/// driver around it.
pub struct Replica {
    /// ID of this replica.
    pub id: ReplicaID,
    /// IDs of the other replicas in the cluster, without duplicates and
    /// without this replica's own ID.
    pub peer_ids: Vec<ReplicaID>,
    /// Current term.
    pub current_term: u64,
    /// IDs of replicas that voted for this replica; tracked only while it is
    /// a candidate.
    pub current_votes: Option<Vec<ReplicaID>>,
    /// Role of this replica.
    pub state: State,
    /// Who the last vote in `current_term` was cast for.
    pub voted_for: Option<ReplicaID>,
    /// Retained suffix of the logical log; entry at position `i` has absolute
    /// index `index_offset + i`.
    pub log: Vec<Entry>,
    /// Highest absolute index known to be committed.
    pub commit_index: u64,
    /// Highest absolute index applied to the local state machine.
    pub last_applied: u64,
    /// For each peer (parallel to `peer_ids`), absolute index of the next
    /// entry to send. Meaningful only while leader.
    pub next_index: Vec<u64>,
    /// For each peer (parallel to `peer_ids`), highest absolute index known
    /// replicated there. Meaningful only while leader.
    pub match_index: Vec<u64>,
    /// Transition whose repeated application is semantically neutral;
    /// appended by a new leader to unlock same-term commits.
    pub noop_transition: Transition,
    /// Current snapshot, if one was loaded or built.
    pub snapshot: Option<Snapshot>,
    /// Build a snapshot every `snapshot_delta` applied entries; 0 disables
    /// snapshotting.
    pub snapshot_delta: u64,
    /// Absolute index of the first entry physically present in `log`.
    pub index_offset: u64,
}

impl Replica {
    /// Absolute index one past the last retained entry.
    pub open spec fn abs_end(self) -> int {
        self.index_offset + self.log@.len()
    }

    /// Absolute index of the tail of the logical log. When the retained log
    /// is empty this is the snapshot's last included index.
    pub open spec fn last_log_index(self) -> int {
        self.abs_end() - 1
    }

    /// Term of the logical log's tail.
    pub open spec fn last_log_term(self) -> u64 {
        if self.log@.len() > 0 {
            self.log@.last().term
        } else {
            self.snapshot->Some_0.last_included_term
        }
    }

    /// Each retained entry sits at its absolute index.
    pub open spec fn log_contiguous(self) -> bool {
        forall|i: int|
            0 <= i < self.log@.len() ==> (#[trigger] self.log@[i]).index == self.index_offset + i
    }

    /// Term recorded for absolute index `a`; defined for retained indices and
    /// for the snapshot boundary `index_offset - 1`.
    pub open spec fn term_at(self, a: int) -> u64 {
        if a >= self.index_offset {
            self.log@[a - self.index_offset].term
        } else {
            self.snapshot->Some_0.last_included_term
        }
    }

    /// The set of replica IDs forming the cluster: the peers plus this
    /// replica itself.
    pub open spec fn cluster_size(self) -> int {
        self.peer_ids@.len() + 1int
    }

    pub open spec fn is_cluster_member(self, v: ReplicaID) -> bool {
        v == self.id || self.peer_ids@.contains(v)
    }

    /// Well-formedness of the replica state. Established by `new` and
    /// preserved by every handler.
    pub open spec fn wf(self) -> bool {
        &&& self.log_contiguous()
        &&& self.peer_ids@.no_duplicates()
        &&& !self.peer_ids@.contains(self.id)
        &&& self.peer_ids@.len() < usize::MAX
        &&& self.next_index@.len() == self.peer_ids@.len()
        &&& self.match_index@.len() == self.peer_ids@.len()
        &&& self.last_applied <= self.commit_index
        &&& self.commit_index < self.abs_end()
        &&& self.index_offset <= self.last_applied + 1
        &&& self.last_log_index() < u64::MAX
        &&& (self.index_offset == 0 ==> self.snapshot is None && self.log@.len() > 0
            && self.log@[0].term == 0)
        &&& (self.index_offset > 0 ==> (self.snapshot matches Some(s)
            && s.last_included_index + 1 == self.index_offset))
        &&& (self.state is Leader ==> forall|p: int|
            0 <= p < self.next_index@.len() ==> 1 <= #[trigger] self.next_index@[p])
        &&& (self.current_votes matches Some(vs) ==> vs@.no_duplicates()
            && forall|i: int| 0 <= i < vs@.len() ==> self.is_cluster_member(#[trigger] vs@[i]))
    }

    /// Create a new replica.
    ///
    /// `loaded_snapshot` is whatever snapshot the user's state machine
    /// recovered at startup; with one, the retained log starts empty just
    /// past the snapshot and everything the snapshot covers counts as
    /// committed and applied. Without one, the log holds the sentinel entry
    /// at index 0, term 0.
    pub fn new(
        id: ReplicaID,
        peer_ids: Vec<ReplicaID>,
        snapshot_delta: u64,
        noop_transition: Transition,
        loaded_snapshot: Option<Snapshot>,
    ) -> (r: Replica)
        requires
            peer_ids@.no_duplicates(),
            !peer_ids@.contains(id),
            peer_ids@.len() < usize::MAX,
            loaded_snapshot matches Some(s) ==> s.last_included_index < u64::MAX - 1,
        ensures
            r.wf(),
            r.id == id,
            r.peer_ids == peer_ids,
            r.current_term == 0,
            r.current_votes is None,
            r.state is Follower,
            r.voted_for is None,
            r.noop_transition == noop_transition,
            r.snapshot_delta == snapshot_delta,
            r.snapshot == loaded_snapshot,
            r.next_index@ == Seq::new(peer_ids@.len(), |i: int| 1u64),
            r.match_index@ == Seq::new(peer_ids@.len(), |i: int| 0u64),
            match loaded_snapshot {
                Some(s) => {
                    &&& r.log@.len() == 0
                    &&& r.index_offset == s.last_included_index + 1
                    &&& r.commit_index == s.last_included_index
                    &&& r.last_applied == s.last_included_index
                },
                None => {
                    &&& r.log@ == seq![Entry { transition: noop_transition, index: 0, term: 0 }]
                    &&& r.index_offset == 0
                    &&& r.commit_index == 0
                    &&& r.last_applied == 0
                },
            },
    {
        let mut next_index: Vec<u64> = Vec::new();
        let mut match_index: Vec<u64> = Vec::new();
        let mut i: usize = 0;
        while i < peer_ids.len()
            invariant
                i <= peer_ids@.len(),
                next_index@ =~= Seq::new(i as nat, |k: int| 1u64),
                match_index@ =~= Seq::new(i as nat, |k: int| 0u64),
            decreases peer_ids@.len() - i,
        {
            next_index.push(1);
            match_index.push(0);
            i = i + 1;
        }
        assert(next_index@ =~= Seq::new(peer_ids@.len(), |k: int| 1u64));
        assert(match_index@ =~= Seq::new(peer_ids@.len(), |k: int| 0u64));
        let mut log: Vec<Entry> = Vec::new();
        let (index_offset, commit_index): (u64, u64) = match loaded_snapshot {
            Some(s) => (s.last_included_index + 1, s.last_included_index),
            None => {
                log.push(Entry { transition: noop_transition, index: 0, term: 0 });
                (0, 0)
            },
        };
        Replica {
            id,
            peer_ids,
            current_term: 0,
            current_votes: None,
            state: State::Follower,
            voted_for: None,
            log,
            commit_index,
            last_applied: commit_index,
            next_index,
            match_index,
            noop_transition,
            snapshot: loaded_snapshot,
            snapshot_delta,
            index_offset,
        }
    }

    /// Step down (or stay) as follower at `term`, forgetting any vote and any
    /// votes collected. Everything else is untouched.
    pub fn become_follower(&mut self, term: u64)
        requires
            old(self).wf(),
            term >= old(self).current_term,
        ensures
            final(self).wf(),
            final(self).current_term == term,
            final(self).state is Follower,
            final(self).voted_for is None,
            final(self).current_votes is None,
            final(self).id == old(self).id,
            final(self).peer_ids == old(self).peer_ids,
            final(self).log == old(self).log,
            final(self).commit_index == old(self).commit_index,
            final(self).last_applied == old(self).last_applied,
            final(self).next_index == old(self).next_index,
            final(self).match_index == old(self).match_index,
            final(self).noop_transition == old(self).noop_transition,
            final(self).snapshot == old(self).snapshot,
            final(self).snapshot_delta == old(self).snapshot_delta,
            final(self).index_offset == old(self).index_offset,
    {
        self.current_term = term;
        self.state = State::Follower;
        self.current_votes = None;
        self.voted_for = None;
    }

    /// Absolute index of the logical log's tail, as an executable value.
    pub fn last_log_index_exec(&self) -> (r: u64)
        requires
            self.wf(),
        ensures
            r == self.last_log_index(),
    {
        self.index_offset + self.log.len() as u64 - 1
    }

    /// Term of the logical log's tail, as an executable value.
    pub fn last_log_term_exec(&self) -> (r: u64)
        requires
            self.wf(),
        ensures
            r == self.last_log_term(),
    {
        if self.log.len() > 0 {
            self.log[self.log.len() - 1].term
        } else {
            self.snapshot.unwrap().last_included_term
        }
    }

    /// The vote solicitation this replica broadcasts on becoming candidate:
    /// one VoteRequest per peer, carrying the candidate's term and log tail.
    pub open spec fn vote_request_actions(self) -> Seq<Action> {
        Seq::new(
            self.peer_ids@.len(),
            |i: int| Action::SendMessage {
                peer_id: self.peer_ids@[i],
                message: Message::VoteRequest {
                    from_id: self.id,
                    term: self.current_term,
                    last_log_index: self.last_log_index() as u64,
                    last_log_term: self.last_log_term(),
                },
            },
        )
    }

    /// Take over as leader: register with the cluster, reset the per-peer
    /// replication bookkeeping, and append a no-op entry at the new leader's
    /// term so entries of prior terms can be committed transitively through
    /// it.
    pub fn become_leader(&mut self) -> (actions: Vec<Action>)
        requires
            old(self).wf(),
            old(self).abs_end() < u64::MAX,
        ensures
            final(self).wf(),
            final(self).state is Leader,
            final(self).current_votes is None,
            final(self).voted_for is None,
            final(self).next_index@ == Seq::new(
                old(self).peer_ids@.len(),
                |i: int| old(self).abs_end() as u64,
            ),
            final(self).match_index@ == Seq::new(old(self).peer_ids@.len(), |i: int| 0u64),
            final(self).log@ == old(self).log@.push(
                Entry {
                    transition: old(self).noop_transition,
                    index: old(self).abs_end() as u64,
                    term: old(self).current_term,
                },
            ),
            final(self).id == old(self).id,
            final(self).peer_ids == old(self).peer_ids,
            final(self).current_term == old(self).current_term,
            final(self).commit_index == old(self).commit_index,
            final(self).last_applied == old(self).last_applied,
            final(self).noop_transition == old(self).noop_transition,
            final(self).snapshot == old(self).snapshot,
            final(self).snapshot_delta == old(self).snapshot_delta,
            final(self).index_offset == old(self).index_offset,
            actions@ == seq![Action::RegisterLeader { leader_id: Some(old(self).id) }],
    {
        self.state = State::Leader;
        self.current_votes = None;
        self.voted_for = None;
        let tail: u64 = self.index_offset + self.log.len() as u64;
        let mut next_index: Vec<u64> = Vec::new();
        let mut match_index: Vec<u64> = Vec::new();
        let mut i: usize = 0;
        while i < self.peer_ids.len()
            invariant
                i <= self.peer_ids@.len(),
                tail == self.abs_end(),
                tail >= 1,
                next_index@ =~= Seq::new(i as nat, |k: int| tail),
                match_index@ =~= Seq::new(i as nat, |k: int| 0u64),
            decreases self.peer_ids@.len() - i,
        {
            next_index.push(tail);
            match_index.push(0);
            i = i + 1;
        }
        self.next_index = next_index;
        self.match_index = match_index;
        self.log.push(
            Entry { transition: self.noop_transition, index: tail, term: self.current_term },
        );
        let mut actions: Vec<Action> = Vec::new();
        actions.push(Action::RegisterLeader { leader_id: Some(self.id) });
        actions
    }

    /// Start an election: bump the term, vote for self, and solicit votes
    /// from every peer. With no peers at all, the election is won on the
    /// spot.
    pub fn become_candidate(&mut self) -> (actions: Vec<Action>)
        requires
            old(self).wf(),
            old(self).current_term < u64::MAX,
            old(self).peer_ids@.len() == 0 ==> old(self).abs_end() < u64::MAX,
        ensures
            final(self).wf(),
            final(self).current_term == old(self).current_term + 1,
            final(self).id == old(self).id,
            final(self).peer_ids == old(self).peer_ids,
            final(self).commit_index == old(self).commit_index,
            final(self).last_applied == old(self).last_applied,
            final(self).noop_transition == old(self).noop_transition,
            final(self).snapshot == old(self).snapshot,
            final(self).snapshot_delta == old(self).snapshot_delta,
            final(self).index_offset == old(self).index_offset,
            old(self).peer_ids@.len() > 0 ==> {
                &&& final(self).state is Candidate
                &&& final(self).current_votes matches Some(vs) && vs@ == seq![old(self).id]
                &&& final(self).voted_for == Some(old(self).id)
                &&& final(self).log == old(self).log
                &&& actions@ == final(self).vote_request_actions()
            },
            old(self).peer_ids@.len() == 0 ==> {
                &&& final(self).state is Leader
                &&& final(self).current_votes is None
                &&& final(self).voted_for is None
                &&& final(self).log@ == old(self).log@.push(
                    Entry {
                        transition: old(self).noop_transition,
                        index: old(self).abs_end() as u64,
                        term: (old(self).current_term + 1) as u64,
                    },
                )
                &&& actions@ == seq![Action::RegisterLeader { leader_id: Some(old(self).id) }]
            },
    {
        self.current_term = self.current_term + 1;
        self.state = State::Candidate;
        let mut votes: Vec<ReplicaID> = Vec::new();
        votes.push(self.id);
        self.current_votes = Some(votes);
        self.voted_for = Some(self.id);
        let last_log_index = self.last_log_index_exec();
        let last_log_term = self.last_log_term_exec();
        let mut actions: Vec<Action> = Vec::new();
        let mut i: usize = 0;
        while i < self.peer_ids.len()
            invariant
                i <= self.peer_ids@.len(),
                self.wf(),
                last_log_index == self.last_log_index(),
                last_log_term == self.last_log_term(),
                actions@ =~= self.vote_request_actions().take(i as int),
            decreases self.peer_ids@.len() - i,
        {
            actions.push(
                Action::SendMessage {
                    peer_id: self.peer_ids[i],
                    message: Message::VoteRequest {
                        from_id: self.id,
                        term: self.current_term,
                        last_log_index,
                        last_log_term,
                    },
                },
            );
            i = i + 1;
        }
        assert(actions@ =~= self.vote_request_actions());
        if self.peer_ids.len() == 0 {
            actions = self.become_leader();
        }
        actions
    }

    /// A candidate's log counts as at least as up to date as ours when its
    /// tail has a greater term, or the same term and a position no smaller.
    pub open spec fn log_up_to_date(self, last_log_index: u64, last_log_term: u64) -> bool {
        ||| last_log_term > self.last_log_term()
        ||| (last_log_term == self.last_log_term() && last_log_index >= self.last_log_index())
    }

    /// The vote response `self_id` sends to `to`.
    pub open spec fn vote_response_action(
        self_id: ReplicaID,
        to: ReplicaID,
        term: u64,
        vote_granted: bool,
    ) -> Action {
        Action::SendMessage {
            peer_id: to,
            message: Message::VoteResponse { from_id: self_id, term, vote_granted },
        }
    }

    /// Exactly when a vote request against this (pre-call) state is granted:
    /// the candidate's term is current, no conflicting vote was cast in it,
    /// and the candidate's log is at least as up to date as ours.
    pub open spec fn would_grant_vote(
        self,
        from_id: ReplicaID,
        term: u64,
        last_log_index: u64,
        last_log_term: u64,
    ) -> bool {
        &&& self.current_term <= term
        &&& (self.current_term == term ==> self.voted_for is None || self.voted_for == Some(
            from_id,
        ))
        &&& self.log_up_to_date(last_log_index, last_log_term)
    }

    /// Everything a vote request does to a replica and what it answers:
    /// relates the state before (`pre`) and after (`post`) and the actions
    /// emitted.
    pub open spec fn vote_request_step(
        pre: Replica,
        post: Replica,
        actions: Seq<Action>,
        from_id: ReplicaID,
        term: u64,
        last_log_index: u64,
        last_log_term: u64,
    ) -> bool {
        &&& post.id == pre.id
        &&& post.peer_ids == pre.peer_ids
        &&& post.log == pre.log
        &&& post.commit_index == pre.commit_index
        &&& post.last_applied == pre.last_applied
        &&& post.next_index == pre.next_index
        &&& post.match_index == pre.match_index
        &&& post.noop_transition == pre.noop_transition
        &&& post.snapshot == pre.snapshot
        &&& post.snapshot_delta == pre.snapshot_delta
        &&& post.index_offset == pre.index_offset
        &&& (pre.current_term > term ==> {
            &&& post == pre
            &&& actions =~= seq![
                Self::vote_response_action(pre.id, from_id, pre.current_term, false),
            ]
        })
        &&& (pre.current_term <= term ==> post.current_term == term)
        &&& (pre.current_term < term ==> post.state is Follower && post.current_votes is None)
        &&& (pre.current_term == term ==> post.state == pre.state && post.current_votes
            == pre.current_votes)
        &&& (pre.current_term <= term ==> {
            if pre.would_grant_vote(from_id, term, last_log_index, last_log_term) {
                &&& post.voted_for == Some(from_id)
                &&& actions =~= (if pre.current_term < term {
                    seq![Action::RegisterLeader { leader_id: None }]
                } else {
                    Seq::empty()
                }) + seq![
                    Action::RegisterLeader { leader_id: None },
                    Self::vote_response_action(pre.id, from_id, term, true),
                ]
            } else {
                &&& post.voted_for == (if pre.current_term < term {
                    None
                } else {
                    pre.voted_for
                })
                &&& actions =~= (if pre.current_term < term {
                    seq![Action::RegisterLeader { leader_id: None }]
                } else {
                    Seq::empty()
                }) + seq![Self::vote_response_action(pre.id, from_id, term, false)]
            }
        })
    }

    /// Answer a vote solicitation. A request from a stale term is denied
    /// outright; one from a newer term first forces this replica to follower
    /// at that term (clearing its vote). The vote is granted exactly under
    /// `would_grant_vote`, and a granted vote is remembered in `voted_for`.
    pub fn process_vote_request_as_follower(
        &mut self,
        from_id: ReplicaID,
        term: u64,
        last_log_index: u64,
        last_log_term: u64,
    ) -> (actions: Vec<Action>)
        requires
            old(self).wf(),
        ensures
            final(self).wf(),
            final(self).current_term >= old(self).current_term,
            Self::vote_request_step(
                *old(self),
                *final(self),
                actions@,
                from_id,
                term,
                last_log_index,
                last_log_term,
            ),
    {
        let mut actions: Vec<Action> = Vec::new();
        if self.current_term > term {
            // A candidate that is behind cannot take the leadership.
            actions.push(
                Action::SendMessage {
                    peer_id: from_id,
                    message: Message::VoteResponse {
                        from_id: self.id,
                        term: self.current_term,
                        vote_granted: false,
                    },
                },
            );
            return actions;
        }
        if self.current_term < term {
            // The candidate's term is newer: step down before judging it.
            actions.push(Action::RegisterLeader { leader_id: None });
            self.become_follower(term);
        }
        let may_vote = match self.voted_for {
            None => true,
            Some(v) => v == from_id,
        };
        let my_last_term = self.last_log_term_exec();
        let my_last_index = self.last_log_index_exec();
        let up_to_date = last_log_term > my_last_term || (last_log_term == my_last_term
            && last_log_index >= my_last_index);
        if may_vote && up_to_date {
            actions.push(Action::RegisterLeader { leader_id: None });
            actions.push(
                Action::SendMessage {
                    peer_id: from_id,
                    message: Message::VoteResponse {
                        from_id: self.id,
                        term: self.current_term,
                        vote_granted: true,
                    },
                },
            );
            self.voted_for = Some(from_id);
        } else {
            actions.push(
                Action::SendMessage {
                    peer_id: from_id,
                    message: Message::VoteResponse {
                        from_id: self.id,
                        term: self.current_term,
                        vote_granted: false,
                    },
                },
            );
        }
        actions
    }

    /// The answer `self_id` sends to `to` about an AppendEntryRequest.
    pub open spec fn append_response_action(
        self_id: ReplicaID,
        to: ReplicaID,
        term: u64,
        success: bool,
        last_index: u64,
        mismatch_index: Option<u64>,
    ) -> Action {
        Action::SendMessage {
            peer_id: to,
            message: Message::AppendEntryResponse {
                from_id: self_id,
                term,
                success,
                last_index,
                mismatch_index,
            },
        }
    }

    /// Whether this replica's log confirms the leader's claim that the entry
    /// at absolute index `prev_log_index` has term `prev_log_term`. Indices
    /// the snapshot has subsumed count as confirmed: everything there is
    /// committed, and committed entries agree across the cluster.
    pub open spec fn prev_matches(self, prev_log_index: u64, prev_log_term: u64) -> bool {
        if prev_log_index > self.last_log_index() {
            false
        } else if prev_log_index >= self.index_offset {
            self.log@[prev_log_index - self.index_offset].term == prev_log_term
        } else if prev_log_index + 1 == self.index_offset {
            self.snapshot->Some_0.last_included_term == prev_log_term
        } else {
            true
        }
    }

    /// How one entry from the leader reshapes a retained log that starts at
    /// absolute index `offset`. Entries at or below `floor` (the committed
    /// prefix, which includes everything a snapshot subsumed) are left alone;
    /// a conflicting term at an existing index drops that entry and
    /// everything after it; an entry landing exactly at the tail is appended;
    /// anything already present with a matching term, or beyond the tail, is
    /// left as is.
    pub open spec fn adopt_one(log: Seq<Entry>, offset: int, floor: int, e: Entry) -> Seq<Entry> {
        if e.index <= floor {
            log
        } else {
            let log1 = if e.index - offset < log.len() && log[e.index - offset].term != e.term {
                log.take(e.index - offset)
            } else {
                log
            };
            if e.index - offset == log1.len() {
                log1.push(e)
            } else {
                log1
            }
        }
    }

    /// `adopt_one` folded over a batch of entries, in order.
    pub open spec fn adopt(log: Seq<Entry>, offset: int, floor: int, entries: Seq<Entry>) -> Seq<
        Entry,
    >
        decreases entries.len(),
    {
        if entries.len() == 0 {
            log
        } else {
            Self::adopt(
                Self::adopt_one(log, offset, floor, entries[0]),
                offset,
                floor,
                entries.drop_first(),
            )
        }
    }

    /// Folding one more entry commutes with `adopt`: processing a batch and
    /// then one entry is processing the extended batch.
    pub proof fn lemma_adopt_snoc(log: Seq<Entry>, offset: int, floor: int, entries: Seq<Entry>, e: Entry)
        ensures
            Self::adopt(log, offset, floor, entries.push(e)) == Self::adopt_one(
                Self::adopt(log, offset, floor, entries),
                offset,
                floor,
                e,
            ),
        decreases entries.len(),
    {
        if entries.len() == 0 {
            reveal_with_fuel(Replica::adopt, 3);
            assert(entries.push(e)[0] == e);
            assert(entries.push(e).drop_first() =~= Seq::<Entry>::empty());
        } else {
            assert(entries.push(e)[0] == entries[0]);
            assert(entries.push(e).drop_first() =~= entries.drop_first().push(e));
            Self::lemma_adopt_snoc(
                Self::adopt_one(log, offset, floor, entries[0]),
                offset,
                floor,
                entries.drop_first(),
                e,
            );
        }
    }

    /// Everything an AppendEntryRequest does to a replica and what it
    /// answers: relates the state before (`pre`) and after (`post`) and the
    /// actions emitted.
    pub open spec fn append_request_step(
        pre: Replica,
        post: Replica,
        actions: Seq<Action>,
        from_id: ReplicaID,
        term: u64,
        prev_log_index: u64,
        prev_log_term: u64,
        entries: Seq<Entry>,
        commit_index: u64,
    ) -> bool {
        &&& post.id == pre.id
        &&& post.peer_ids == pre.peer_ids
        &&& post.last_applied == pre.last_applied
        &&& post.next_index == pre.next_index
        &&& post.match_index == pre.match_index
        &&& post.noop_transition == pre.noop_transition
        &&& post.snapshot == pre.snapshot
        &&& post.snapshot_delta == pre.snapshot_delta
        &&& post.index_offset == pre.index_offset
        &&& (pre.current_term > term ==> {
            &&& post == pre
            &&& actions =~= seq![
                Self::append_response_action(
                    pre.id,
                    from_id,
                    pre.current_term,
                    false,
                    pre.last_log_index() as u64,
                    None,
                ),
            ]
        })
        &&& (pre.current_term <= term ==> {
            &&& post.current_term == term
            &&& (pre.current_term < term ==> post.state is Follower && post.current_votes is None
                && post.voted_for is None)
            &&& (pre.current_term == term ==> post.state == pre.state && post.current_votes
                == pre.current_votes && post.voted_for == pre.voted_for)
        })
        &&& (pre.current_term <= term && !pre.prev_matches(prev_log_index, prev_log_term) ==> {
            &&& post.log == pre.log
            &&& post.commit_index == pre.commit_index
            &&& actions =~= seq![
                Self::append_response_action(
                    pre.id,
                    from_id,
                    term,
                    false,
                    pre.last_log_index() as u64,
                    Some(prev_log_index),
                ),
            ]
        })
        &&& (pre.current_term <= term && pre.prev_matches(prev_log_index, prev_log_term) ==> {
            &&& post.log@ == Self::adopt(
                pre.log@,
                pre.index_offset as int,
                pre.commit_index as int,
                entries,
            )
            &&& post.commit_index == (if commit_index > pre.commit_index {
                if commit_index <= post.last_log_index() {
                    commit_index
                } else {
                    post.last_log_index() as u64
                }
            } else {
                pre.commit_index
            })
            &&& actions =~= seq![
                Action::RegisterLeader { leader_id: Some(from_id) },
                Self::append_response_action(
                    pre.id,
                    from_id,
                    term,
                    true,
                    post.last_log_index() as u64,
                    None,
                ),
            ]
        })
    }

    /// Handle a leader's AppendEntryRequest. A request from a stale term is
    /// refused without a mismatch hint; one whose previous-entry claim the
    /// local log contradicts is refused with `mismatch_index` so the leader
    /// can back up. Otherwise the entries are folded into the log
    /// (`adopt`), the commit index is raised to what the leader reports
    /// (capped by the local tail), and the sender is registered as leader.
    pub fn process_append_entry_request_as_follower(
        &mut self,
        from_id: ReplicaID,
        term: u64,
        prev_log_index: u64,
        prev_log_term: u64,
        entries: Vec<Entry>,
        commit_index: u64,
    ) -> (actions: Vec<Action>)
        requires
            old(self).wf(),
            forall|i: int| 0 <= i < entries@.len() ==> (#[trigger] entries@[i]).index < u64::MAX,
        ensures
            final(self).wf(),
            final(self).current_term >= old(self).current_term,
            final(self).commit_index >= old(self).commit_index,
            Self::append_request_step(
                *old(self),
                *final(self),
                actions@,
                from_id,
                term,
                prev_log_index,
                prev_log_term,
                entries@,
                commit_index,
            ),
    {
        let mut actions: Vec<Action> = Vec::new();
        if self.current_term > term {
            // The sender is a deposed leader; refuse without a hint.
            let last_index = self.last_log_index_exec();
            actions.push(
                Action::SendMessage {
                    peer_id: from_id,
                    message: Message::AppendEntryResponse {
                        from_id: self.id,
                        term: self.current_term,
                        success: false,
                        last_index,
                        mismatch_index: None,
                    },
                },
            );
            return actions;
        }
        if self.current_term < term {
            self.become_follower(term);
        }
        // Does the local log confirm the leader's previous entry?
        let last_index = self.last_log_index_exec();
        let matches_prev = if prev_log_index > last_index {
            false
        } else if prev_log_index >= self.index_offset {
            let n = self.log.len();
            let pos = prev_log_index - self.index_offset;
            assert(pos < n as u64);
            self.log[pos as usize].term == prev_log_term
        } else if prev_log_index + 1 == self.index_offset {
            self.snapshot.unwrap().last_included_term == prev_log_term
        } else {
            true
        };
        if !matches_prev {
            actions.push(
                Action::SendMessage {
                    peer_id: from_id,
                    message: Message::AppendEntryResponse {
                        from_id: self.id,
                        term: self.current_term,
                        success: false,
                        last_index,
                        mismatch_index: Some(prev_log_index),
                    },
                },
            );
            return actions;
        }
        let ghost pre = *self;
        let mut i: usize = 0;
        while i < entries.len()
            invariant
                i <= entries@.len(),
                forall|k: int| 0 <= k < entries@.len() ==> (#[trigger] entries@[k]).index
                    < u64::MAX,
                self.log@ == Self::adopt(
                    pre.log@,
                    pre.index_offset as int,
                    pre.commit_index as int,
                    entries@.take(i as int),
                ),
                self.wf(),
                self.id == pre.id,
                self.peer_ids == pre.peer_ids,
                self.current_term == pre.current_term,
                self.current_votes == pre.current_votes,
                self.state == pre.state,
                self.voted_for == pre.voted_for,
                self.commit_index == pre.commit_index,
                self.last_applied == pre.last_applied,
                self.next_index == pre.next_index,
                self.match_index == pre.match_index,
                self.noop_transition == pre.noop_transition,
                self.snapshot == pre.snapshot,
                self.snapshot_delta == pre.snapshot_delta,
                self.index_offset == pre.index_offset,
            decreases entries@.len() - i,
        {
            let e = entries[i];
            proof {
                assert(entries@.take(i + 1).drop_last() =~= entries@.take(i as int));
                assert(entries@.take(i + 1).last() == entries@[i as int]);
                assert(entries@.take(i + 1) =~= entries@.take(i as int).push(entries@[i as int]));
                Self::lemma_adopt_snoc(
                    pre.log@,
                    pre.index_offset as int,
                    pre.commit_index as int,
                    entries@.take(i as int),
                    entries@[i as int],
                );
            }
            if e.index > self.commit_index {
                // Inside the retained suffix: drop a conflicting tail, then
                // append when the entry lands exactly at the end.
                let pos = e.index - self.index_offset;
                if pos < self.log.len() as u64 && self.log[pos as usize].term != e.term {
                    assert(pos < self.log@.len());
                    self.log.truncate(pos as usize);
                }
                if pos == self.log.len() as u64 {
                    self.log.push(e);
                }
            }
            i = i + 1;
        }
        proof {
            assert(entries@.take(entries@.len() as int) =~= entries@);
        }
        // Raise the local commit index to the leader's, capped by the tail.
        let last_index = self.last_log_index_exec();
        if commit_index > self.commit_index {
            self.commit_index = if commit_index < last_index {
                commit_index
            } else {
                last_index
            };
        }
        actions.push(Action::RegisterLeader { leader_id: Some(from_id) });
        actions.push(
            Action::SendMessage {
                peer_id: from_id,
                message: Message::AppendEntryResponse {
                    from_id: self.id,
                    term: self.current_term,
                    success: true,
                    last_index,
                    mismatch_index: None,
                },
            },
        );
        actions
    }

    /// Position of `peer` in `peer_ids`, if it is a peer.
    fn peer_position(&self, peer: ReplicaID) -> (r: Option<usize>)
        ensures
            match r {
                Some(k) => k < self.peer_ids@.len() && self.peer_ids@[k as int] == peer,
                None => !self.peer_ids@.contains(peer),
            },
    {
        let mut i: usize = 0;
        while i < self.peer_ids.len()
            invariant
                i <= self.peer_ids@.len(),
                forall|k: int| 0 <= k < i ==> self.peer_ids@[k] != peer,
            decreases self.peer_ids@.len() - i,
        {
            if self.peer_ids[i] == peer {
                return Some(i);
            }
            i = i + 1;
        }
        None
    }

    /// The replica a vote-step ends in when it merely steps down to a newer
    /// term.
    pub open spec fn stepped_down(pre: Replica, term: u64) -> Replica {
        Replica {
            current_term: term,
            state: State::Follower,
            current_votes: None,
            voted_for: None,
            ..pre
        }
    }

    /// What a message a role does not otherwise handle does to the replica:
    /// a newer term still forces it to follower at that term — every message
    /// carrying a newer term does, before any role-specific handling — and
    /// the message is then ignored.
    pub open spec fn ignored_message_step(
        pre: Replica,
        post: Replica,
        actions: Seq<Action>,
        term: u64,
    ) -> bool {
        &&& actions =~= Seq::<Action>::empty()
        &&& post == (if term > pre.current_term {
            Self::stepped_down(pre, term)
        } else {
            pre
        })
    }

    /// Everything an AppendEntryResponse does to a leader: a newer term
    /// deposes it; a success report advances the sender's replication
    /// bookkeeping; a failure report with a fresh `mismatch_index` backs
    /// `next_index` up so the missing suffix is resent; a stale or duplicate
    /// rejection (`mismatch_index` at or past `next_index`) is discarded.
    pub open spec fn append_response_step(
        pre: Replica,
        post: Replica,
        actions: Seq<Action>,
        from_id: ReplicaID,
        term: u64,
        success: bool,
        last_index: u64,
        mismatch_index: Option<u64>,
    ) -> bool {
        &&& (term > pre.current_term ==> {
            &&& post == Self::stepped_down(pre, term)
            &&& actions =~= seq![Action::RegisterLeader { leader_id: None }]
        })
        &&& (term <= pre.current_term ==> {
            &&& actions =~= Seq::<Action>::empty()
            &&& (!pre.peer_ids@.contains(from_id) ==> post == pre)
            &&& (forall|k: int|
                0 <= k < pre.peer_ids@.len() && pre.peer_ids@[k] == from_id ==> {
                    if success {
                        &&& post.next_index@ == pre.next_index@.update(k, (last_index + 1) as u64)
                        &&& post.match_index@ == pre.match_index@.update(k, last_index)
                        &&& post == Replica {
                            next_index: post.next_index,
                            match_index: post.match_index,
                            ..pre
                        }
                    } else if (mismatch_index matches Some(m) && m < pre.next_index@[k]) {
                        &&& post.next_index@ == pre.next_index@.update(
                            k,
                            (if mismatch_index->Some_0 as int <= last_index as int {
                                if mismatch_index->Some_0 >= 1 {
                                    mismatch_index->Some_0
                                } else {
                                    1u64
                                }
                            } else {
                                (last_index + 1) as u64
                            }),
                        )
                        &&& post == Replica { next_index: post.next_index, ..pre }
                    } else {
                        post == pre
                    }
                })
        })
    }

    /// Handle a peer's answer to replication, as leader. See
    /// `append_response_step` for the exact effect.
    pub fn process_append_entry_response_as_leader(
        &mut self,
        from_id: ReplicaID,
        term: u64,
        success: bool,
        last_index: u64,
        mismatch_index: Option<u64>,
    ) -> (actions: Vec<Action>)
        requires
            old(self).wf(),
            last_index < u64::MAX,
        ensures
            final(self).wf(),
            final(self).current_term >= old(self).current_term,
            final(self).commit_index == old(self).commit_index,
            Self::append_response_step(
                *old(self),
                *final(self),
                actions@,
                from_id,
                term,
                success,
                last_index,
                mismatch_index,
            ),
    {
        let mut actions: Vec<Action> = Vec::new();
        if term > self.current_term {
            // Another node moved on to a newer term: step down.
            actions.push(Action::RegisterLeader { leader_id: None });
            self.become_follower(term);
            return actions;
        }
        let k = match self.peer_position(from_id) {
            Some(k) => k,
            None => {
                return actions;
            },
        };
        if success {
            self.next_index.set(k, last_index + 1);
            self.match_index.set(k, last_index);
        } else {
            if let Some(m) = mismatch_index {
                if m < self.next_index[k] {
                    // A fresh rejection: jump next_index back to the
                    // follower's reported mismatch, but no further back than
                    // just past its tail, and never below the first real
                    // index.
                    let backed: u64 = if m <= last_index {
                        if m >= 1 {
                            m
                        } else {
                            1
                        }
                    } else {
                        last_index + 1
                    };
                    self.next_index.set(k, backed);
                }
            }
        }
        actions
    }

    /// A strict majority of the whole cluster (peers plus self).
    pub open spec fn is_quorum(self, n: int) -> bool {
        2 * n > self.cluster_size()
    }

    /// Everything a VoteResponse does to a candidate: a newer term deposes
    /// it; a granted vote from a cluster member is recorded, and the moment
    /// the recorded votes form a strict majority of the cluster the candidate
    /// takes over as leader. Anything else is ignored.
    pub open spec fn vote_response_step(
        pre: Replica,
        post: Replica,
        actions: Seq<Action>,
        from_id: ReplicaID,
        term: u64,
        vote_granted: bool,
    ) -> bool {
        if term > pre.current_term {
            &&& post == Self::stepped_down(pre, term)
            &&& actions =~= seq![Action::RegisterLeader { leader_id: None }]
        } else if vote_granted && pre.current_votes is Some && pre.is_cluster_member(from_id) {
            let vs = pre.current_votes->Some_0;
            let votes = if vs@.contains(from_id) {
                vs@
            } else {
                vs@.push(from_id)
            };
            if pre.is_quorum(votes.len() as int) {
                &&& post.state is Leader
                &&& post.current_votes is None
                &&& post.voted_for is None
                &&& post.next_index@ == Seq::new(pre.peer_ids@.len(), |i: int| pre.abs_end() as u64)
                &&& post.match_index@ == Seq::new(pre.peer_ids@.len(), |i: int| 0u64)
                &&& post.log@ == pre.log@.push(
                    Entry {
                        transition: pre.noop_transition,
                        index: pre.abs_end() as u64,
                        term: pre.current_term,
                    },
                )
                &&& post == Replica {
                    state: post.state,
                    current_votes: post.current_votes,
                    voted_for: post.voted_for,
                    next_index: post.next_index,
                    match_index: post.match_index,
                    log: post.log,
                    ..pre
                }
                &&& actions =~= seq![Action::RegisterLeader { leader_id: Some(pre.id) }]
            } else {
                &&& (post.current_votes matches Some(ws) && ws@ == votes)
                &&& post == Replica { current_votes: post.current_votes, ..pre }
                &&& actions =~= Seq::<Action>::empty()
            }
        } else {
            &&& post == pre
            &&& actions =~= Seq::<Action>::empty()
        }
    }

    /// Handle a vote response, as candidate. See `vote_response_step` for
    /// the exact effect.
    pub fn process_vote_response_as_candidate(
        &mut self,
        from_id: ReplicaID,
        term: u64,
        vote_granted: bool,
    ) -> (actions: Vec<Action>)
        requires
            old(self).wf(),
            old(self).abs_end() < u64::MAX,
        ensures
            final(self).wf(),
            final(self).current_term >= old(self).current_term,
            final(self).commit_index == old(self).commit_index,
            Self::vote_response_step(
                *old(self),
                *final(self),
                actions@,
                from_id,
                term,
                vote_granted,
            ),
    {
        let mut actions: Vec<Action> = Vec::new();
        if term > self.current_term {
            actions.push(Action::RegisterLeader { leader_id: None });
            self.become_follower(term);
            return actions;
        }
        if !vote_granted {
            return actions;
        }
        let is_member = from_id == self.id || match self.peer_position(from_id) {
            Some(_) => true,
            None => false,
        };
        if !is_member {
            return actions;
        }
        let cluster_size = self.peer_ids.len() + 1;
        let quorum = match &mut self.current_votes {
            None => {
                return actions;
            },
            Some(votes) => {
                let mut seen = false;
                let mut i: usize = 0;
                while i < votes.len()
                    invariant
                        i <= votes@.len(),
                        seen == exists|k: int| 0 <= k < i && votes@[k] == from_id,
                    decreases votes@.len() - i,
                {
                    if votes[i] == from_id {
                        seen = true;
                    }
                    i = i + 1;
                }
                assert(seen == votes@.contains(from_id));
                if !seen {
                    votes.push(from_id);
                }
                votes.len() > cluster_size / 2
            },
        };
        if quorum {
            actions = self.become_leader();
        }
        actions
    }

    /// Everything a VoteRequest does to a candidate: a newer term makes it
    /// step down (announcing that no leader is known) and judge the request
    /// as a fresh follower would; anything else is denied.
    pub open spec fn candidate_vote_request_step(
        pre: Replica,
        post: Replica,
        actions: Seq<Action>,
        from_id: ReplicaID,
        term: u64,
        last_log_index: u64,
        last_log_term: u64,
    ) -> bool {
        if term > pre.current_term {
            &&& actions.len() >= 1
            &&& actions[0] == Action::RegisterLeader { leader_id: None }
            &&& Self::vote_request_step(
                Self::stepped_down(pre, term),
                post,
                actions.drop_first(),
                from_id,
                term,
                last_log_index,
                last_log_term,
            )
        } else {
            &&& post == pre
            &&& actions =~= seq![
                Self::vote_response_action(pre.id, from_id, pre.current_term, false),
            ]
        }
    }

    /// Handle a vote solicitation, as candidate. See
    /// `candidate_vote_request_step` for the exact effect.
    pub fn process_vote_request_as_candidate(
        &mut self,
        from_id: ReplicaID,
        term: u64,
        last_log_index: u64,
        last_log_term: u64,
    ) -> (actions: Vec<Action>)
        requires
            old(self).wf(),
        ensures
            final(self).wf(),
            final(self).current_term >= old(self).current_term,
            final(self).commit_index == old(self).commit_index,
            Self::candidate_vote_request_step(
                *old(self),
                *final(self),
                actions@,
                from_id,
                term,
                last_log_index,
                last_log_term,
            ),
    {
        let mut actions: Vec<Action> = Vec::new();
        if term > self.current_term {
            actions.push(Action::RegisterLeader { leader_id: None });
            self.become_follower(term);
            let mut rest = self.process_vote_request_as_follower(
                from_id,
                term,
                last_log_index,
                last_log_term,
            );
            let ghost rest_view = rest@;
            actions.append(&mut rest);
            assert(actions@.drop_first() =~= rest_view);
        } else {
            actions.push(
                Action::SendMessage {
                    peer_id: from_id,
                    message: Message::VoteResponse {
                        from_id: self.id,
                        term: self.current_term,
                        vote_granted: false,
                    },
                },
            );
        }
        actions
    }

    /// Everything an AppendEntryRequest does to a candidate: a term at least
    /// as new means a leader exists for it, so the candidate steps down and
    /// handles the request as a follower; a stale term is refused.
    pub open spec fn candidate_append_request_step(
        pre: Replica,
        post: Replica,
        actions: Seq<Action>,
        from_id: ReplicaID,
        term: u64,
        prev_log_index: u64,
        prev_log_term: u64,
        entries: Seq<Entry>,
        commit_index: u64,
    ) -> bool {
        if term >= pre.current_term {
            &&& actions.len() >= 1
            &&& actions[0] == Action::RegisterLeader { leader_id: None }
            &&& Self::append_request_step(
                Self::stepped_down(pre, term),
                post,
                actions.drop_first(),
                from_id,
                term,
                prev_log_index,
                prev_log_term,
                entries,
                commit_index,
            )
        } else {
            &&& post == pre
            &&& actions =~= seq![
                Self::append_response_action(
                    pre.id,
                    from_id,
                    pre.current_term,
                    false,
                    pre.last_log_index() as u64,
                    None,
                ),
            ]
        }
    }

    /// Handle a leader's AppendEntryRequest, as candidate. See
    /// `candidate_append_request_step` for the exact effect.
    pub fn process_append_entry_request_as_candidate(
        &mut self,
        from_id: ReplicaID,
        term: u64,
        prev_log_index: u64,
        prev_log_term: u64,
        entries: Vec<Entry>,
        commit_index: u64,
    ) -> (actions: Vec<Action>)
        requires
            old(self).wf(),
            forall|i: int| 0 <= i < entries@.len() ==> (#[trigger] entries@[i]).index < u64::MAX,
        ensures
            final(self).wf(),
            final(self).current_term >= old(self).current_term,
            final(self).commit_index >= old(self).commit_index,
            Self::candidate_append_request_step(
                *old(self),
                *final(self),
                actions@,
                from_id,
                term,
                prev_log_index,
                prev_log_term,
                entries@,
                commit_index,
            ),
    {
        let mut actions: Vec<Action> = Vec::new();
        if term >= self.current_term {
            actions.push(Action::RegisterLeader { leader_id: None });
            self.become_follower(term);
            let mut rest = self.process_append_entry_request_as_follower(
                from_id,
                term,
                prev_log_index,
                prev_log_term,
                entries,
                commit_index,
            );
            let ghost rest_view = rest@;
            actions.append(&mut rest);
            assert(actions@.drop_first() =~= rest_view);
        } else {
            let last_index = self.last_log_index_exec();
            actions.push(
                Action::SendMessage {
                    peer_id: from_id,
                    message: Message::AppendEntryResponse {
                        from_id: self.id,
                        term: self.current_term,
                        success: false,
                        last_index,
                        mismatch_index: None,
                    },
                },
            );
        }
        actions
    }

    /// No machine limit is hit while handling `message`: reported indices
    /// stay below the largest representable index.
    pub open spec fn message_fits(message: Message) -> bool {
        &&& (message matches Message::AppendEntryRequest { entries, .. } ==> forall|i: int|
            0 <= i < entries@.len() ==> (#[trigger] entries@[i]).index < u64::MAX)
        &&& (message matches Message::AppendEntryResponse { last_index, .. } ==> last_index
            < u64::MAX)
    }

    /// What any message does to a follower: requests are handled; responses
    /// are ignored after adopting any newer term they carry.
    pub open spec fn follower_message_step(
        pre: Replica,
        post: Replica,
        actions: Seq<Action>,
        message: Message,
    ) -> bool {
        match message {
            Message::VoteRequest { from_id, term, last_log_index, last_log_term } => {
                Self::vote_request_step(
                    pre,
                    post,
                    actions,
                    from_id,
                    term,
                    last_log_index,
                    last_log_term,
                )
            },
            Message::AppendEntryRequest {
                from_id,
                term,
                prev_log_index,
                prev_log_term,
                entries,
                commit_index,
            } => {
                Self::append_request_step(
                    pre,
                    post,
                    actions,
                    from_id,
                    term,
                    prev_log_index,
                    prev_log_term,
                    entries@,
                    commit_index,
                )
            },
            Message::AppendEntryResponse { term, .. } => Self::ignored_message_step(
                pre,
                post,
                actions,
                term,
            ),
            Message::VoteResponse { term, .. } => Self::ignored_message_step(
                pre,
                post,
                actions,
                term,
            ),
        }
    }

    /// What any message does to a candidate: requests are handled with the
    /// step-down rules, vote responses are counted, replication responses
    /// are ignored after adopting any newer term they carry.
    pub open spec fn candidate_message_step(
        pre: Replica,
        post: Replica,
        actions: Seq<Action>,
        message: Message,
    ) -> bool {
        match message {
            Message::VoteRequest { from_id, term, last_log_index, last_log_term } => {
                Self::candidate_vote_request_step(
                    pre,
                    post,
                    actions,
                    from_id,
                    term,
                    last_log_index,
                    last_log_term,
                )
            },
            Message::AppendEntryRequest {
                from_id,
                term,
                prev_log_index,
                prev_log_term,
                entries,
                commit_index,
            } => {
                Self::candidate_append_request_step(
                    pre,
                    post,
                    actions,
                    from_id,
                    term,
                    prev_log_index,
                    prev_log_term,
                    entries@,
                    commit_index,
                )
            },
            Message::VoteResponse { from_id, term, vote_granted } => {
                Self::vote_response_step(pre, post, actions, from_id, term, vote_granted)
            },
            Message::AppendEntryResponse { term, .. } => Self::ignored_message_step(
                pre,
                post,
                actions,
                term,
            ),
        }
    }

    /// What any message does to a leader: replication responses are handled;
    /// any other message carrying a newer term first deposes the leader
    /// (announcing that no leader is known) and is then handled as a fresh
    /// follower would — requests are answered, a vote response is dropped. A
    /// message at the leader's own term or older is ignored.
    pub open spec fn leader_message_step(
        pre: Replica,
        post: Replica,
        actions: Seq<Action>,
        message: Message,
    ) -> bool {
        match message {
            Message::AppendEntryResponse { from_id, term, success, last_index, mismatch_index } => {
                Self::append_response_step(
                    pre,
                    post,
                    actions,
                    from_id,
                    term,
                    success,
                    last_index,
                    mismatch_index,
                )
            },
            Message::VoteRequest { from_id, term, last_log_index, last_log_term } => {
                if term > pre.current_term {
                    &&& actions.len() >= 1
                    &&& actions[0] == Action::RegisterLeader { leader_id: None }
                    &&& Self::vote_request_step(
                        Self::stepped_down(pre, term),
                        post,
                        actions.drop_first(),
                        from_id,
                        term,
                        last_log_index,
                        last_log_term,
                    )
                } else {
                    post == pre && actions =~= Seq::<Action>::empty()
                }
            },
            Message::AppendEntryRequest {
                from_id,
                term,
                prev_log_index,
                prev_log_term,
                entries,
                commit_index,
            } => {
                if term > pre.current_term {
                    &&& actions.len() >= 1
                    &&& actions[0] == Action::RegisterLeader { leader_id: None }
                    &&& Self::append_request_step(
                        Self::stepped_down(pre, term),
                        post,
                        actions.drop_first(),
                        from_id,
                        term,
                        prev_log_index,
                        prev_log_term,
                        entries@,
                        commit_index,
                    )
                } else {
                    post == pre && actions =~= Seq::<Action>::empty()
                }
            },
            Message::VoteResponse { term, .. } => {
                if term > pre.current_term {
                    &&& post == Self::stepped_down(pre, term)
                    &&& actions =~= seq![Action::RegisterLeader { leader_id: None }]
                } else {
                    post == pre && actions =~= Seq::<Action>::empty()
                }
            },
        }
    }

    /// What any message does to a replica, by its role.
    pub open spec fn message_step(
        pre: Replica,
        post: Replica,
        actions: Seq<Action>,
        message: Message,
    ) -> bool {
        match pre.state {
            State::Follower => Self::follower_message_step(pre, post, actions, message),
            State::Candidate => Self::candidate_message_step(pre, post, actions, message),
            State::Leader => Self::leader_message_step(pre, post, actions, message),
        }
    }

    /// Dispatch one inbound message, as follower.
    pub fn process_message_as_follower(&mut self, message: Message) -> (actions: Vec<Action>)
        requires
            old(self).wf(),
            Self::message_fits(message),
        ensures
            final(self).wf(),
            final(self).current_term >= old(self).current_term,
            final(self).commit_index >= old(self).commit_index,
            Self::follower_message_step(*old(self), *final(self), actions@, message),
    {
        match message {
            Message::VoteRequest { from_id, term, last_log_index, last_log_term } => self
                .process_vote_request_as_follower(from_id, term, last_log_index, last_log_term),
            Message::AppendEntryRequest {
                from_id,
                term,
                prev_log_index,
                prev_log_term,
                entries,
                commit_index,
            } => self.process_append_entry_request_as_follower(
                from_id,
                term,
                prev_log_index,
                prev_log_term,
                entries,
                commit_index,
            ),
            Message::AppendEntryResponse { term, .. } => {
                if term > self.current_term {
                    self.become_follower(term);
                }
                Vec::new()
            },
            Message::VoteResponse { term, .. } => {
                if term > self.current_term {
                    self.become_follower(term);
                }
                Vec::new()
            },
        }
    }

    /// Dispatch one inbound message, as candidate.
    pub fn process_message_as_candidate(&mut self, message: Message) -> (actions: Vec<Action>)
        requires
            old(self).wf(),
            old(self).abs_end() < u64::MAX,
            Self::message_fits(message),
        ensures
            final(self).wf(),
            final(self).current_term >= old(self).current_term,
            final(self).commit_index >= old(self).commit_index,
            Self::candidate_message_step(*old(self), *final(self), actions@, message),
    {
        match message {
            Message::VoteRequest { from_id, term, last_log_index, last_log_term } => self
                .process_vote_request_as_candidate(from_id, term, last_log_index, last_log_term),
            Message::AppendEntryRequest {
                from_id,
                term,
                prev_log_index,
                prev_log_term,
                entries,
                commit_index,
            } => self.process_append_entry_request_as_candidate(
                from_id,
                term,
                prev_log_index,
                prev_log_term,
                entries,
                commit_index,
            ),
            Message::VoteResponse { from_id, term, vote_granted } => self
                .process_vote_response_as_candidate(from_id, term, vote_granted),
            Message::AppendEntryResponse { term, .. } => {
                if term > self.current_term {
                    self.become_follower(term);
                }
                Vec::new()
            },
        }
    }

    /// Dispatch one inbound message, as leader.
    pub fn process_message_as_leader(&mut self, message: Message) -> (actions: Vec<Action>)
        requires
            old(self).wf(),
            Self::message_fits(message),
        ensures
            final(self).wf(),
            final(self).current_term >= old(self).current_term,
            final(self).commit_index >= old(self).commit_index,
            Self::leader_message_step(*old(self), *final(self), actions@, message),
    {
        match message {
            Message::AppendEntryResponse { from_id, term, success, last_index, mismatch_index } =>
                self.process_append_entry_response_as_leader(
                from_id,
                term,
                success,
                last_index,
                mismatch_index,
            ),
            Message::VoteRequest { from_id, term, last_log_index, last_log_term } => {
                let mut actions: Vec<Action> = Vec::new();
                if term > self.current_term {
                    actions.push(Action::RegisterLeader { leader_id: None });
                    self.become_follower(term);
                    let mut rest = self.process_vote_request_as_follower(
                        from_id,
                        term,
                        last_log_index,
                        last_log_term,
                    );
                    let ghost rest_view = rest@;
                    actions.append(&mut rest);
                    assert(actions@.drop_first() =~= rest_view);
                }
                actions
            },
            Message::AppendEntryRequest {
                from_id,
                term,
                prev_log_index,
                prev_log_term,
                entries,
                commit_index,
            } => {
                let mut actions: Vec<Action> = Vec::new();
                if term > self.current_term {
                    actions.push(Action::RegisterLeader { leader_id: None });
                    self.become_follower(term);
                    let mut rest = self.process_append_entry_request_as_follower(
                        from_id,
                        term,
                        prev_log_index,
                        prev_log_term,
                        entries,
                        commit_index,
                    );
                    let ghost rest_view = rest@;
                    actions.append(&mut rest);
                    assert(actions@.drop_first() =~= rest_view);
                }
                actions
            },
            Message::VoteResponse { term, .. } => {
                let mut actions: Vec<Action> = Vec::new();
                if term > self.current_term {
                    actions.push(Action::RegisterLeader { leader_id: None });
                    self.become_follower(term);
                }
                actions
            },
        }
    }

    /// The absolute index from which the leader actually sends to peer `k`:
    /// its recorded `next_index`, pulled back to just past the leader's own
    /// tail if a follower reported a longer log than the leader holds.
    pub open spec fn effective_next(self, k: int) -> int {
        if self.next_index@[k] as int <= self.last_log_index() + 1 {
            self.next_index@[k] as int
        } else {
            self.last_log_index() + 1
        }
    }

    /// Whether the retained log can serve peer `k`. A peer whose next entry
    /// has been compacted away needs a snapshot transfer instead, which the
    /// cluster layer must provide; the broadcast detects and skips it.
    pub open spec fn peer_serviceable(self, k: int) -> bool {
        self.effective_next(k) >= self.index_offset
    }

    /// How many of the first `k` peers are serviceable.
    pub open spec fn serviceable_before(self, k: int) -> int
        decreases k,
    {
        if k <= 0 {
            0
        } else {
            self.serviceable_before(k - 1) + if self.peer_serviceable(k - 1) {
                1int
            } else {
                0int
            }
        }
    }

    /// Positions of the serviceable peers' requests are increasing: a later
    /// peer's request never lands at or before an earlier one's.
    pub proof fn lemma_serviceable_before_mono(self, a: int, b: int)
        requires
            0 <= a <= b,
        ensures
            self.serviceable_before(a) <= self.serviceable_before(b),
            a < b && self.peer_serviceable(a) ==> self.serviceable_before(a)
                < self.serviceable_before(b),
        decreases b - a,
    {
        if a < b {
            self.lemma_serviceable_before_mono(a, b - 1);
        }
    }

    /// `a` is exactly the replication request this leader owes peer `k`.
    pub open spec fn is_append_request_to(self, k: int, a: Action) -> bool {
        &&& a matches Action::SendMessage { peer_id, message }
        &&& peer_id == self.peer_ids@[k]
        &&& message matches Message::AppendEntryRequest {
            from_id,
            term,
            prev_log_index,
            prev_log_term,
            entries,
            commit_index,
        }
        &&& from_id == self.id
        &&& term == self.current_term
        &&& prev_log_index == (self.effective_next(k) - 1) as u64
        &&& prev_log_term == self.term_at(self.effective_next(k) - 1)
        &&& entries@ == self.log@.subrange(
            self.effective_next(k) - self.index_offset,
            self.log@.len() as int,
        )
        &&& commit_index == self.commit_index
    }

    /// The log entries the leader still owes `peer_id`: everything from the
    /// effective next index to the tail. Empty for an unknown peer or one
    /// whose next entry was compacted away.
    pub fn get_entries_for_peer(&self, peer_id: ReplicaID) -> (entries: Vec<Entry>)
        requires
            self.wf(),
            self.state is Leader,
        ensures
            forall|k: int|
                0 <= k < self.peer_ids@.len() && self.peer_ids@[k] == peer_id ==> entries@ == (
                if self.peer_serviceable(k) {
                    self.log@.subrange(
                        self.effective_next(k) - self.index_offset,
                        self.log@.len() as int,
                    )
                } else {
                    Seq::<Entry>::empty()
                }),
            !self.peer_ids@.contains(peer_id) ==> entries@ == Seq::<Entry>::empty(),
    {
        let mut entries: Vec<Entry> = Vec::new();
        let k = match self.peer_position(peer_id) {
            Some(k) => k,
            None => {
                return entries;
            },
        };
        let last_index = self.last_log_index_exec();
        let nx = self.next_index[k];
        let eff: u64 = if nx <= last_index {
            nx
        } else {
            last_index + 1
        };
        if eff < self.index_offset {
            return entries;
        }
        let start = eff - self.index_offset;
        assert(start <= self.log.len() as u64);
        let mut j: usize = start as usize;
        assert(j == self.effective_next(k as int) - self.index_offset);
        while j < self.log.len()
            invariant
                self.wf(),
                0 <= k < self.peer_ids@.len(),
                self.peer_serviceable(k as int),
                self.effective_next(k as int) - self.index_offset <= j <= self.log@.len(),
                entries@ =~= self.log@.subrange(
                    self.effective_next(k as int) - self.index_offset,
                    j as int,
                ),
            decreases self.log@.len() - j,
        {
            entries.push(self.log[j]);
            proof {
                assert(entries@ =~= self.log@.subrange(
                    self.effective_next(k as int) - self.index_offset,
                    j + 1,
                ));
            }
            j = j + 1;
        }
        entries
    }

    /// Broadcast replication requests (or heartbeats, when a peer is fully
    /// caught up) to every serviceable peer, in peer order.
    #[verifier::rlimit(50)]
    pub fn broadcast_append_entry_request(&self) -> (actions: Vec<Action>)
        requires
            self.wf(),
            self.state is Leader,
        ensures
            actions@.len() == self.serviceable_before(self.peer_ids@.len() as int),
            forall|k: int|
                0 <= k < self.peer_ids@.len() && self.peer_serviceable(k)
                    ==> self.is_append_request_to(k, actions@[self.serviceable_before(k)]),
    {
        let mut actions: Vec<Action> = Vec::new();
        let last_index = self.last_log_index_exec();
        let mut i: usize = 0;
        while i < self.peer_ids.len()
            invariant
                self.wf(),
                self.state is Leader,
                last_index == self.last_log_index(),
                i <= self.peer_ids@.len(),
                actions@.len() == self.serviceable_before(i as int),
                forall|k: int|
                    0 <= k < i && self.peer_serviceable(k) ==> self.is_append_request_to(
                        k,
                        actions@[self.serviceable_before(k)],
                    ),
            decreases self.peer_ids@.len() - i,
        {
            let nx = self.next_index[i];
            let eff: u64 = if nx <= last_index {
                nx
            } else {
                last_index + 1
            };
            if eff >= self.index_offset {
                assert(self.peer_serviceable(i as int));
                let prev_log_index = eff - 1;
                let prev_log_term = if prev_log_index >= self.index_offset {
                    let n = self.log.len();
                    let pos = prev_log_index - self.index_offset;
                    assert(pos < n as u64);
                    self.log[pos as usize].term
                } else {
                    self.snapshot.unwrap().last_included_term
                };
                let entries = self.get_entries_for_peer(self.peer_ids[i]);
                proof {
                    assert(entries@ == self.log@.subrange(
                        self.effective_next(i as int) - self.index_offset,
                        self.log@.len() as int,
                    ));
                }
                let ghost n0 = actions@.len() as int;
                actions.push(
                    Action::SendMessage {
                        peer_id: self.peer_ids[i],
                        message: Message::AppendEntryRequest {
                            from_id: self.id,
                            term: self.current_term,
                            prev_log_index,
                            prev_log_term,
                            entries,
                            commit_index: self.commit_index,
                        },
                    },
                );
                proof {
                    assert(self.serviceable_before(i + 1) == self.serviceable_before(i as int)
                        + 1);
                    assert(self.is_append_request_to(i as int, actions@[n0]));
                    assert forall|k: int|
                        0 <= k < i + 1 && self.peer_serviceable(k) implies self.is_append_request_to(
                        k,
                        actions@[self.serviceable_before(k)],
                    ) by {
                        self.lemma_serviceable_before_mono(0, k);
                        self.lemma_serviceable_before_mono(k, i as int);
                    }
                }
            } else {
                assert(!self.peer_serviceable(i as int));
                assert(self.serviceable_before(i + 1) == self.serviceable_before(i as int));
            }
            i = i + 1;
        }
        actions
    }

    /// The log entries a leader creates for freshly drained transitions:
    /// one per transition, in order, starting at the current tail and
    /// carrying the leader's term.
    pub open spec fn queued_entries(self, transitions: Seq<Transition>) -> Seq<Entry> {
        Seq::new(
            transitions.len(),
            |i: int| Entry {
                transition: transitions[i],
                index: (self.abs_end() + i) as u64,
                term: self.current_term,
            },
        )
    }

    /// Take the transitions the state machine has pending. A leader appends
    /// each to its log at the current term and reports it Queued; any other
    /// role discards them (only the leader accepts new work), which keeps the
    /// pending queue from growing across role changes.
    pub fn load_new_transitions(&mut self, transitions: Vec<Transition>) -> (actions: Vec<Action>)
        requires
            old(self).wf(),
            old(self).state is Leader ==> old(self).abs_end() + transitions@.len() <= u64::MAX,
        ensures
            final(self).wf(),
            !(old(self).state is Leader) ==> *final(self) == *old(self) && actions@ =~= Seq::<
                Action,
            >::empty(),
            old(self).state is Leader ==> {
                &&& final(self).log@ == old(self).log@ + old(self).queued_entries(transitions@)
                &&& actions@ == Seq::new(
                    transitions@.len(),
                    |i: int| Action::RegisterTransitionState {
                        transition_id: transitions@[i].id,
                        state: EntryState::Queued,
                    },
                )
                &&& *final(self) == Replica { log: final(self).log, ..*old(self) }
            },
    {
        let mut actions: Vec<Action> = Vec::new();
        if !matches!(self.state, State::Leader) {
            return actions;
        }
        let ghost pre = *self;
        let mut i: usize = 0;
        while i < transitions.len()
            invariant
                pre.state is Leader,
                pre.abs_end() + transitions@.len() <= u64::MAX,
                i <= transitions@.len(),
                self.wf(),
                self.log@ =~= pre.log@ + pre.queued_entries(transitions@).take(i as int),
                actions@ =~= Seq::new(
                    i as nat,
                    |k: int| Action::RegisterTransitionState {
                        transition_id: transitions@[k].id,
                        state: EntryState::Queued,
                    },
                ),
                *self == (Replica { log: self.log, ..pre }),
            decreases transitions@.len() - i,
        {
            let index: u64 = self.index_offset + self.log.len() as u64;
            let transition = transitions[i];
            self.log.push(Entry { transition, index, term: self.current_term });
            actions.push(
                Action::RegisterTransitionState {
                    transition_id: transition.id,
                    state: EntryState::Queued,
                },
            );
            i = i + 1;
            proof {
                assert(self.log@ =~= pre.log@ + pre.queued_entries(transitions@).take(i as int));
            }
        }
        proof {
            assert(pre.queued_entries(transitions@).take(transitions@.len() as int)
                =~= pre.queued_entries(transitions@));
            assert(actions@ =~= Seq::new(
                transitions@.len(),
                |i: int| Action::RegisterTransitionState {
                    transition_id: transitions@[i].id,
                    state: EntryState::Queued,
                },
            ));
        }
        actions
    }

    /// How many entries of `m` are at least `n`.
    pub open spec fn count_at_least(m: Seq<u64>, n: int) -> int
        decreases m.len(),
    {
        if m.len() == 0 {
            0
        } else {
            Self::count_at_least(m.drop_last(), n) + if m.last() as int >= n {
                1int
            } else {
                0int
            }
        }
    }

    /// A leader may commit absolute index `n` when the replicas known to
    /// hold it (those peers plus the leader itself) form a quorum and the
    /// entry is of the leader's own term: entries of earlier terms are only
    /// ever committed transitively through one of the current term.
    pub open spec fn committable(self, n: int) -> bool {
        &&& self.is_quorum(Self::count_at_least(self.match_index@, n) + 1)
        &&& self.term_at(n) == self.current_term
    }

    /// The highest committable index in `(commit_index, n]`, or
    /// `commit_index` if there is none.
    pub open spec fn commit_scan(self, n: int) -> int
        decreases n,
    {
        if n <= self.commit_index {
            self.commit_index as int
        } else if self.committable(n) {
            n
        } else {
            self.commit_scan(n - 1)
        }
    }

    /// Where the commit index stands after one bookkeeping pass: a leader
    /// advances it to the highest committable index; everyone else moves it
    /// only on instruction from a leader.
    pub open spec fn new_commit_index(self) -> int {
        if self.state is Leader {
            self.commit_scan(self.last_log_index())
        } else {
            self.commit_index as int
        }
    }

    /// The Committed notifications a leader owes for entries in
    /// `(commit_index, c]`.
    pub open spec fn committed_registrations(self, c: int) -> Seq<Action> {
        Seq::new(
            (c - self.commit_index) as nat,
            |d: int| Action::RegisterTransitionState {
                transition_id: self.log@[self.commit_index + 1 + d
                    - self.index_offset].transition.id,
                state: EntryState::Committed,
            },
        )
    }

    /// The apply-loop actions for entries in `(from, to]`: each transition
    /// applied in log order and then reported Applied.
    pub open spec fn apply_actions(self, from: int, to: int) -> Seq<Action>
        decreases to - from,
    {
        if to <= from {
            Seq::empty()
        } else {
            self.apply_actions(from, to - 1) + seq![
                Action::ApplyTransition { transition: self.log@[to - self.index_offset].transition },
                Action::RegisterTransitionState {
                    transition_id: self.log@[to - self.index_offset].transition.id,
                    state: EntryState::Applied,
                },
            ]
        }
    }

    /// The index the current snapshot reaches, or 0 with none.
    pub open spec fn snapshot_base(self) -> int {
        match self.snapshot {
            Some(s) => s.last_included_index as int,
            None => 0,
        }
    }

    /// Whether finishing a bookkeeping pass at commit index `c` triggers
    /// compaction: some entry was applied in this pass, snapshotting is
    /// enabled, and enough has been applied since the last snapshot.
    pub open spec fn would_compact(self, c: int) -> bool {
        &&& self.last_applied < c
        &&& self.snapshot_delta > 0
        &&& c - self.snapshot_base() >= self.snapshot_delta
    }

    /// One bookkeeping pass, run after every poll: a leader first advances
    /// its commit index to the highest index replicated on a quorum in its
    /// own term and reports those entries Committed; then every replica
    /// applies the entries between `last_applied` and the commit index, in
    /// order; and if the final apply of the pass has put at least
    /// `snapshot_delta` entries past the last snapshot, the state machine is
    /// asked for a fresh snapshot and the log is compacted to the entries
    /// past it, with `index_offset` moved to `last_applied + 1`.
    pub fn apply_ready_entries(&mut self) -> (actions: Vec<Action>)
        requires
            old(self).wf(),
        ensures
            final(self).wf(),
            final(self).current_term == old(self).current_term,
            final(self).commit_index >= old(self).commit_index,
            final(self).commit_index == old(self).new_commit_index(),
            final(self).last_applied == old(self).new_commit_index(),
            *final(self) == (Replica {
                log: final(self).log,
                commit_index: final(self).commit_index,
                last_applied: final(self).last_applied,
                snapshot: final(self).snapshot,
                index_offset: final(self).index_offset,
                ..*old(self)
            }),
            ({
                let c = old(self).new_commit_index();
                let compact = old(self).would_compact(c);
                &&& (compact ==> {
                    &&& final(self).index_offset == c + 1
                    &&& final(self).snapshot == Some(
                        Snapshot {
                            last_included_index: c as u64,
                            last_included_term: old(self).term_at(c),
                        },
                    )
                    &&& final(self).log@ == old(self).log@.subrange(
                        c + 1 - old(self).index_offset,
                        old(self).log@.len() as int,
                    )
                })
                &&& (!compact ==> final(self).index_offset == old(self).index_offset
                    && final(self).snapshot == old(self).snapshot
                    && final(self).log == old(self).log)
                &&& actions@ == old(self).committed_registrations(c) + old(self).apply_actions(
                    old(self).last_applied as int,
                    c,
                ) + (if compact {
                    seq![
                        Action::CreateSnapshot {
                            last_included_index: c as u64,
                            last_included_term: old(self).term_at(c),
                        },
                    ]
                } else {
                    Seq::<Action>::empty()
                })
            }),
    {
        let ghost pre = *self;
        let la0: u64 = self.last_applied;
        let mut actions: Vec<Action> = Vec::new();
        // A leader first advances its commit index over quorum-replicated
        // entries of its own term.
        if matches!(self.state, State::Leader) {
            let last = self.last_log_index_exec();
            let threshold = (self.peer_ids.len() + 1) / 2;
            let c0: u64 = self.commit_index;
            let mut n: u64 = last;
            while n > self.commit_index
                invariant_except_break
                    *self == pre,
                    pre.wf(),
                    pre.state is Leader,
                    last == pre.last_log_index(),
                    threshold as int == (pre.peer_ids@.len() + 1) / 2,
                    pre.commit_index <= n <= last,
                    pre.commit_scan(pre.last_log_index()) == pre.commit_scan(n as int),
                ensures
                    pre.wf(),
                    self.commit_index == pre.commit_scan(pre.last_log_index()),
                    pre.commit_index <= self.commit_index <= pre.last_log_index(),
                    *self == (Replica { commit_index: self.commit_index, ..pre }),
                decreases n - pre.commit_index,
            {
                let mut count: usize = 0;
                let mut j: usize = 0;
                while j < self.match_index.len()
                    invariant
                        j <= self.match_index@.len(),
                        count <= j,
                        count as int == Self::count_at_least(
                            self.match_index@.take(j as int),
                            n as int,
                        ),
                    decreases self.match_index@.len() - j,
                {
                    proof {
                        assert(self.match_index@.take(j + 1).drop_last() =~= self.match_index@.take(
                            j as int,
                        ));
                    }
                    if self.match_index[j] >= n {
                        count = count + 1;
                    }
                    j = j + 1;
                }
                proof {
                    assert(self.match_index@.take(self.match_index@.len() as int)
                        =~= self.match_index@);
                }
                let pos = n - self.index_offset;
                assert(pos < self.log.len() as u64);
                let term_n = self.log[pos as usize].term;
                if count >= threshold && term_n == self.current_term {
                    proof {
                        assert(pre.committable(n as int));
                        assert(pre.commit_scan(n as int) == n as int);
                    }
                    self.commit_index = n;
                    break ;
                }
                proof {
                    assert(!pre.committable(n as int));
                    assert(pre.commit_scan(n as int) == pre.commit_scan(n - 1));
                }
                n = n - 1;
            }
            // Report the freshly committed entries.
            let newc = self.commit_index;
            proof {
                assert(pre.committed_registrations(newc as int).take(0) =~= Seq::<
                    Action,
                >::empty());
            }
            let mut b: u64 = 0;
            while b < newc - c0
                invariant
                    pre.wf(),
                    c0 == pre.commit_index,
                    c0 <= newc <= pre.last_log_index(),
                    0 <= b <= newc - c0,
                    *self == (Replica { commit_index: newc, ..pre }),
                    actions@ =~= pre.committed_registrations(newc as int).take(b as int),
                decreases newc - c0 - b,
            {
                let pos = c0 + 1 + b - self.index_offset;
                assert(pos < self.log.len() as u64);
                let id = self.log[pos as usize].transition.id;
                actions.push(
                    Action::RegisterTransitionState {
                        transition_id: id,
                        state: EntryState::Committed,
                    },
                );
                b = b + 1;
                proof {
                    assert(actions@ =~= pre.committed_registrations(newc as int).take(b as int));
                }
            }
            proof {
                assert(pre.committed_registrations(newc as int).take(newc - c0)
                    =~= pre.committed_registrations(newc as int));
            }
        }
        proof {
            assert(actions@ =~= pre.committed_registrations(pre.new_commit_index()));
        }
        // Apply everything committed but not yet applied, in log order.
        let ghost c = pre.new_commit_index();
        while self.commit_index > self.last_applied
            invariant
                pre.wf(),
                c == pre.new_commit_index(),
                pre.last_applied <= self.last_applied <= self.commit_index,
                self.commit_index == c,
                self.commit_index <= pre.last_log_index(),
                pre.index_offset <= self.last_applied + 1,
                *self == (Replica {
                    commit_index: self.commit_index,
                    last_applied: self.last_applied,
                    ..pre
                }),
                actions@ =~= pre.committed_registrations(c) + pre.apply_actions(
                    pre.last_applied as int,
                    self.last_applied as int,
                ),
            decreases self.commit_index - self.last_applied,
        {
            self.last_applied = self.last_applied + 1;
            let pos = self.last_applied - self.index_offset;
            assert(pos < self.log.len() as u64);
            let transition = self.log[pos as usize].transition;
            actions.push(Action::ApplyTransition { transition });
            actions.push(
                Action::RegisterTransitionState {
                    transition_id: transition.id,
                    state: EntryState::Applied,
                },
            );
            proof {
                assert(actions@ =~= pre.committed_registrations(c) + pre.apply_actions(
                    pre.last_applied as int,
                    self.last_applied as int,
                ));
            }
        }
        // Compact once enough has been applied since the last snapshot.
        if self.last_applied > la0 && self.snapshot_delta > 0 {
            let base: u64 = match self.snapshot {
                Some(s) => s.last_included_index,
                None => 0,
            };
            let delta = self.last_applied - base;
            if delta >= self.snapshot_delta {
                assert(pre.would_compact(c));
                let pos = self.last_applied - self.index_offset;
                assert(pos < self.log.len() as u64);
                let last_included_term = self.log[pos as usize].term;
                assert(last_included_term == pre.term_at(c));
                let start_u64 = self.last_applied + 1 - self.index_offset;
                assert(start_u64 <= self.log.len() as u64);
                let start = start_u64 as usize;
                let mut new_log: Vec<Entry> = Vec::new();
                let mut j: usize = start;
                while j < self.log.len()
                    invariant
                        start <= j <= self.log@.len(),
                        new_log@ =~= self.log@.subrange(start as int, j as int),
                    decreases self.log@.len() - j,
                {
                    new_log.push(self.log[j]);
                    proof {
                        assert(new_log@ =~= self.log@.subrange(start as int, j + 1));
                    }
                    j = j + 1;
                }
                assert(new_log@ =~= self.log@.subrange(start as int, self.log@.len() as int));
                self.log = new_log;
                self.snapshot = Some(
                    Snapshot {
                        last_included_index: self.last_applied,
                        last_included_term,
                    },
                );
                self.index_offset = self.last_applied + 1;
                actions.push(
                    Action::CreateSnapshot {
                        last_included_index: self.last_applied,
                        last_included_term,
                    },
                );
            } else {
                assert(!pre.would_compact(c));
            }
        } else {
            assert(!pre.would_compact(c));
        }
        actions
    }

    /// Dispatch one inbound message according to the replica's current role.
    pub fn process_message(&mut self, message: Message) -> (actions: Vec<Action>)
        requires
            old(self).wf(),
            old(self).abs_end() < u64::MAX,
            Self::message_fits(message),
        ensures
            final(self).wf(),
            final(self).current_term >= old(self).current_term,
            final(self).commit_index >= old(self).commit_index,
            Self::message_step(*old(self), *final(self), actions@, message),
    {
        match self.state {
            State::Leader => self.process_message_as_leader(message),
            State::Candidate => self.process_message_as_candidate(message),
            State::Follower => self.process_message_as_follower(message),
        }
    }
}

} // verus!

