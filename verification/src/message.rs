use vstd::prelude::*;

verus! {

/// Identifier of a replica within the cluster. Stable for the life of the
/// cluster.
pub type ReplicaID = u64;

/// A user-defined state-machine transition, reduced to its stable identity.
/// The replica core never inspects a transition beyond its `id`; the payload
/// the identity names lives with the user's state machine.
#[derive(Clone, Copy, PartialEq, Eq, Structural, Debug)]
pub struct Transition {
    pub id: u64,
}

/// Externally visible lifecycle of a transition, reported to the user's
/// state machine as the replica makes progress on it.
#[derive(Clone, Copy, PartialEq, Eq, Structural, Debug)]
pub enum EntryState {
    /// The leader has appended the transition and is replicating it.
    Queued,
    /// The transition is replicated on a majority and will survive leader
    /// changes.
    Committed,
    /// The transition has been applied to the state machine.
    Applied,
}

/// One slot of the replicated log: a transition together with the term in
/// which it was created and its absolute position in the logical log.
/// `index` is never renumbered by compaction.
#[derive(Clone, Copy, PartialEq, Eq, Structural, Debug)]
pub struct Entry {
    pub transition: Transition,
    pub index: u64,
    pub term: u64,
}

/// Messages the replicas pass between each other to reach consensus.
#[derive(Clone, Debug)]
pub enum Message {
    /// Sent by leaders to replicate log entries; with empty `entries` it
    /// doubles as the heartbeat.
    AppendEntryRequest {
        from_id: ReplicaID,
        term: u64,
        prev_log_index: u64,
        prev_log_term: u64,
        entries: Vec<Entry>,
        commit_index: u64,
    },
    /// A follower's answer to an AppendEntryRequest. On failure,
    /// `mismatch_index` carries the index at which the logs disagreed so the
    /// leader can back up `next_index` in one step.
    AppendEntryResponse {
        from_id: ReplicaID,
        term: u64,
        success: bool,
        last_index: u64,
        mismatch_index: Option<u64>,
    },
    /// Sent by candidates to solicit votes.
    VoteRequest {
        from_id: ReplicaID,
        term: u64,
        last_log_index: u64,
        last_log_term: u64,
    },
    /// A replica's answer to a VoteRequest.
    VoteResponse {
        from_id: ReplicaID,
        term: u64,
        vote_granted: bool,
    },
}

} // verus!
