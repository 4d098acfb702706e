use vstd::prelude::*;

use crate::message::{Entry, Message, ReplicaID};
use crate::replica::{Action, Replica};
use vstd::set_lib::lemma_len_subset;

verus! {

/// Two disjoint finite sets fill a union of exactly their combined size.
proof fn lemma_disjoint_union_len<A>(s1: Set<A>, s2: Set<A>)
    requires
        s1.finite(),
        s2.finite(),
        forall|x: A| !(s1.contains(x) && s2.contains(x)),
    ensures
        s1.union(s2).finite(),
        s1.union(s2).len() == s1.len() + s2.len(),
    decreases s1.len(),
{
    if s1.is_empty() {
        assert(s1.union(s2) =~= s2);
    } else {
        let a = s1.choose();
        assert(s1.contains(a));
        lemma_disjoint_union_len(s1.remove(a), s2);
        assert(s1.remove(a).union(s2) =~= s1.union(s2).remove(a));
        assert(s1.union(s2).contains(a));
    }
}

/// Any two strict majorities of the same finite cluster share a member: the
/// seat of every quorum-based safety argument.
pub proof fn lemma_quorum_overlap(cluster: Set<ReplicaID>, qa: Set<ReplicaID>, qb: Set<ReplicaID>)
    requires
        cluster.finite(),
        qa.subset_of(cluster),
        qb.subset_of(cluster),
        2 * qa.len() > cluster.len(),
        2 * qb.len() > cluster.len(),
    ensures
        exists|v: ReplicaID| qa.contains(v) && qb.contains(v),
{
    if !(exists|v: ReplicaID| qa.contains(v) && qb.contains(v)) {
        lemma_len_subset(qa, cluster);
        lemma_len_subset(qb, cluster);
        lemma_disjoint_union_len(qa, qb);
        lemma_len_subset(qa.union(qb), cluster);
        assert(false);
    }
}

/// Election safety: in any one term, at most one replica wins the election.
/// Here `voted_for` records the single vote each replica casts in that term
/// (`process_vote_request_as_follower` grants a vote only when `voted_for`
/// is unset or already names the same candidate, so one replica never backs
/// two candidates in a term). If candidates `a` and `b` each collected a
/// strict majority of the cluster, they are the same candidate.
pub proof fn lemma_election_safety(
    cluster: Set<ReplicaID>,
    voted_for: Map<ReplicaID, ReplicaID>,
    a: ReplicaID,
    b: ReplicaID,
    qa: Set<ReplicaID>,
    qb: Set<ReplicaID>,
)
    requires
        cluster.finite(),
        qa.subset_of(cluster),
        qb.subset_of(cluster),
        2 * qa.len() > cluster.len(),
        2 * qb.len() > cluster.len(),
        forall|v: ReplicaID| qa.contains(v) ==> voted_for.dom().contains(v) && voted_for[v] == a,
        forall|v: ReplicaID| qb.contains(v) ==> voted_for.dom().contains(v) && voted_for[v] == b,
    ensures
        a == b,
{
    lemma_quorum_overlap(cluster, qa, qb);
}

/// A replica only ever takes leadership on the strength of a strict majority:
/// whenever a vote response turns a non-leader into a leader, the votes it
/// holds (with the newly granted one) are distinct cluster members forming a
/// quorum.
pub proof fn lemma_leader_needs_quorum(
    pre: Replica,
    post: Replica,
    actions: Seq<Action>,
    from_id: ReplicaID,
    term: u64,
    vote_granted: bool,
)
    requires
        pre.wf(),
        !(pre.state is Leader),
        Replica::vote_response_step(pre, post, actions, from_id, term, vote_granted),
        post.state is Leader,
    ensures
        pre.current_votes is Some,
        ({
            let vs = pre.current_votes->Some_0@;
            let votes = if vs.contains(from_id) {
                vs
            } else {
                vs.push(from_id)
            };
            &&& votes.no_duplicates()
            &&& forall|i: int| 0 <= i < votes.len() ==> pre.is_cluster_member(#[trigger] votes[i])
            &&& 2 * votes.len() > pre.cluster_size()
        }),
{
    let vs = pre.current_votes->Some_0@;
    let votes = if vs.contains(from_id) {
        vs
    } else {
        vs.push(from_id)
    };
    assert(forall|i: int| 0 <= i < vs.len() ==> pre.is_cluster_member(#[trigger] vs[i]));
    assert(forall|i: int|
        0 <= i < votes.len() ==> pre.is_cluster_member(#[trigger] votes[i]));
}

/// Leader completeness, quorum half: if an entry is replicated on a strict
/// majority `holders` of the cluster (as a committed entry is) and a
/// candidate is elected by a strict majority `voters`, then some replica
/// both holds the entry and granted the vote. The up-to-date check of
/// `would_grant_vote` is what that voter used to judge the candidate's log.
pub proof fn lemma_leader_completeness_overlap(
    cluster: Set<ReplicaID>,
    holders: Set<ReplicaID>,
    voters: Set<ReplicaID>,
    holds_entry: spec_fn(ReplicaID) -> bool,
)
    requires
        cluster.finite(),
        holders.subset_of(cluster),
        voters.subset_of(cluster),
        2 * holders.len() > cluster.len(),
        2 * voters.len() > cluster.len(),
        forall|v: ReplicaID| holders.contains(v) ==> #[trigger] holds_entry(v),
    ensures
        exists|v: ReplicaID| voters.contains(v) && #[trigger] holds_entry(v),
{
    lemma_quorum_overlap(cluster, holders, voters);
    let v = choose|v: ReplicaID| holders.contains(v) && voters.contains(v);
    assert(holds_entry(v));
}

/// Entries at positions `i` of `a` and `j` of `b` describe the same absolute
/// index, and all earlier aligned positions agree.
pub open spec fn prefixes_agree(a: Seq<Entry>, b: Seq<Entry>, i: int, j: int) -> bool {
    forall|k: int| 0 <= k <= i && k <= j ==> (#[trigger] a[i - k]) == b[j - k]
}

/// The log-matching property between two retained logs: wherever both hold
/// an entry for the same absolute index with the same term, the logs agree
/// on that entry and on everything both retain before it.
pub open spec fn logs_match(a: Seq<Entry>, b: Seq<Entry>) -> bool {
    forall|i: int, j: int|
        0 <= i < a.len() && 0 <= j < b.len() && a[i].index == b[j].index && a[i].term == b[j].term
            ==> #[trigger] prefixes_agree(a, b, i, j)
}

/// State-machine safety, log half: matching logs never apply different
/// transitions at the same index and term — the entries are equal outright.
pub proof fn lemma_state_machine_safety_core(a: Seq<Entry>, b: Seq<Entry>, i: int, j: int)
    requires
        logs_match(a, b),
        0 <= i < a.len(),
        0 <= j < b.len(),
        a[i].index == b[j].index,
        a[i].term == b[j].term,
    ensures
        a[i] == b[j],
        a[i].transition == b[j].transition,
{
    assert(prefixes_agree(a, b, i, j));
    assert(a[i - 0] == b[j - 0]);
}

/// `l` is a whole logical log: the entry at position `i` is the entry for
/// absolute index `i`.
pub open spec fn wf_logical(l: Seq<Entry>) -> bool {
    forall|i: int| 0 <= i < l.len() ==> (#[trigger] l[i]).index == i
}

/// `f` is a retained log starting at absolute index `fo`.
pub open spec fn contiguous_from(f: Seq<Entry>, fo: int) -> bool {
    forall|j: int| 0 <= j < f.len() ==> (#[trigger] f[j]).index == fo + j
}

/// `f` (retained from `fo`) agrees with the logical log `l` everywhere below
/// absolute index `s` that both cover.
pub open spec fn agree_below(l: Seq<Entry>, f: Seq<Entry>, fo: int, s: int) -> bool {
    forall|j: int|
        0 <= j < f.len() && fo + j < s && fo + j < l.len() ==> (#[trigger] f[j]) == l[fo + j]
}

/// Every entry of `f` at or below absolute index `floor` that `l` also
/// covers is `l`'s entry. The handler's floor is the follower's commit
/// index, so this premise is exactly what commit safety grants: committed
/// entries agree with any current leader's log.
pub open spec fn floor_agrees(l: Seq<Entry>, f: Seq<Entry>, floor: int) -> bool {
    forall|j: int|
        0 <= j < f.len() && (#[trigger] f[j]).index <= floor && f[j].index < l.len() ==> f[j]
            == l[f[j].index as int]
}

/// The inductive heart of log matching: folding leader entries into a
/// matching follower log (`Replica::adopt`) keeps the logs matching, and
/// afterwards the follower agrees with the leader on everything below the
/// end of the batch. `s` is the absolute index of the first entry of the
/// batch; agreement below `s` is the anchor the previous-entry check
/// established.
proof fn lemma_adopt_preserves_matching(
    l: Seq<Entry>,
    f: Seq<Entry>,
    fo: int,
    floor: int,
    entries: Seq<Entry>,
    s: int,
)
    requires
        wf_logical(l),
        contiguous_from(f, fo),
        0 <= fo,
        fo - 1 <= floor,
        0 <= s,
        s + entries.len() <= l.len(),
        forall|t: int| 0 <= t < entries.len() ==> (#[trigger] entries[t]) == l[s + t],
        logs_match(l, f),
        agree_below(l, f, fo, s),
        floor_agrees(l, f, floor),
    ensures
        contiguous_from(Replica::adopt(f, fo, floor, entries), fo),
        logs_match(l, Replica::adopt(f, fo, floor, entries)),
        agree_below(l, Replica::adopt(f, fo, floor, entries), fo, s + entries.len()),
        floor_agrees(l, Replica::adopt(f, fo, floor, entries), floor),
    decreases entries.len(),
{
    if entries.len() == 0 {
        return ;
    }
    let e = entries[0];
    assert(e == l[s]);
    assert(e.index == s);
    let f1 = Replica::adopt_one(f, fo, floor, e);
    let cut = s - fo;
    if e.index <= floor {
        assert(f1 == f);
        assert(agree_below(l, f1, fo, s + 1)) by {
            if 0 <= cut < f.len() {
                assert(f[cut].index == s);
                assert(f[cut] == l[s]);
            }
        }
    } else {
        assert(cut >= 0);
        if (cut < f.len() && f[cut].term != e.term) || cut == f.len() {
            // The tail from `cut` (if any) is dropped and the leader's entry
            // appended in its place.
            assert(f1 =~= f.take(cut).push(e));
            assert(contiguous_from(f1, fo));
            assert(agree_below(l, f1, fo, s + 1)) by {
                assert(f1[cut] == l[s]);
            }
            assert(floor_agrees(l, f1, floor)) by {
                assert(f1[cut].index == s > floor);
            }
            assert(logs_match(l, f1)) by {
                assert forall|i: int, j: int|
                    0 <= i < l.len() && 0 <= j < f1.len() && l[i].index == f1[j].index
                        && l[i].term == f1[j].term implies #[trigger] prefixes_agree(
                    l,
                    f1,
                    i,
                    j,
                ) by {
                    if j < cut {
                        assert(f1[j] == f[j]);
                        assert(prefixes_agree(l, f, i, j));
                        assert forall|k: int| 0 <= k <= i && k <= j implies (#[trigger] f1[j
                            - k]) == l[i - k] by {
                            assert(f1[j - k] == f[j - k]);
                            assert(f[j - k] == l[i - k]);
                        }
                    } else {
                        assert(j == cut);
                        assert(f1[j].index == s);
                        assert(l[i].index == i);
                        assert(i == s);
                        assert forall|k: int| 0 <= k <= i && k <= j implies (#[trigger] f1[j
                            - k]) == l[i - k] by {
                            if k == 0 {
                                assert(f1[cut] == l[s]);
                            } else {
                                assert(f1[j - k] == f[j - k]);
                                assert(fo + (j - k) == s - k < s);
                                assert(f[j - k] == l[s - k]);
                            }
                        }
                    }
                }
            }
        } else if cut < f.len() {
            // Already present with the same term: by log matching it is the
            // leader's own entry, so it stays.
            assert(f1 == f);
            assert(agree_below(l, f1, fo, s + 1)) by {
                assert(f[cut].index == s == l[s].index);
                assert(f[cut].term == l[s].term);
                assert(prefixes_agree(l, f, s, cut));
                assert(f[cut - 0] == l[s - 0]);
            }
        } else {
            // A gap: the entry cannot be placed, nothing changes, and no
            // position below `s + 1` exists in `f` at or past `s`.
            assert(f1 == f);
            assert(agree_below(l, f1, fo, s + 1));
        }
    }
    assert(forall|t: int|
        0 <= t < entries.drop_first().len() ==> (#[trigger] entries.drop_first()[t]) == l[s + 1
            + t]);
    lemma_adopt_preserves_matching(l, f1, fo, floor, entries.drop_first(), s + 1);
}

/// Committed entries are stable: whatever batch of entries a replica adopts
/// (`Replica::adopt`, with its commit index as the floor), every entry at or
/// below the floor keeps its position and its value. Once an entry is
/// committed on a replica, no later message can overwrite it there — the
/// per-replica half of leader completeness.
pub proof fn lemma_committed_entries_stable(
    f: Seq<Entry>,
    fo: int,
    floor: int,
    entries: Seq<Entry>,
)
    requires
        contiguous_from(f, fo),
        0 <= fo,
        fo - 1 <= floor,
    ensures
        forall|j: int|
            0 <= j < f.len() && (#[trigger] f[j]).index <= floor ==> j < Replica::adopt(
                f,
                fo,
                floor,
                entries,
            ).len() && Replica::adopt(f, fo, floor, entries)[j] == f[j],
    decreases entries.len(),
{
    if entries.len() > 0 {
        let e = entries[0];
        let f1 = Replica::adopt_one(f, fo, floor, e);
        assert(contiguous_from(f1, fo)) by {
            if e.index > floor {
                let cut = e.index - fo;
                if cut < f.len() && f[cut].term != e.term {
                    assert(f1 =~= f.take(cut).push(e));
                } else if cut == f.len() {
                    assert(f1 =~= f.push(e));
                }
            }
        }
        assert(forall|j: int|
            0 <= j < f.len() && (#[trigger] f[j]).index <= floor ==> j < f1.len() && f1[j]
                == f[j]) by {
            if e.index > floor {
                assert(forall|j: int|
                    0 <= j < f.len() && (#[trigger] f[j]).index <= floor ==> fo + j <= floor
                        < e.index);
            }
        }
        lemma_committed_entries_stable(f1, fo, floor, entries.drop_first());
        assert(forall|j: int|
            0 <= j < f.len() && (#[trigger] f[j]).index <= floor ==> 0 <= j < f1.len()
                && f1[j].index <= floor);
    }
}

/// Log matching is preserved by the follower's adoption of a leader's
/// entries (the log transformation of
/// `process_append_entry_request_as_follower` on the success path). `l` is
/// the leader's whole logical log; the batch is `l`'s entries just past
/// `prev`, and the follower's previous-entry check passed: either its log
/// confirms the leader's term at `prev`, or `prev` lies inside the
/// follower's committed prefix (`prev < fo` only happens past a snapshot,
/// whose entries are committed). Matching logs stay matching, so equal terms
/// at equal indices keep implying equal prefixes across the cluster.
pub proof fn lemma_log_matching_preserved(
    l: Seq<Entry>,
    f: Seq<Entry>,
    fo: int,
    floor: int,
    entries: Seq<Entry>,
    prev: int,
)
    requires
        wf_logical(l),
        contiguous_from(f, fo),
        0 <= fo,
        fo - 1 <= floor,
        0 <= prev,
        prev + 1 + entries.len() <= l.len(),
        forall|t: int| 0 <= t < entries.len() ==> (#[trigger] entries[t]) == l[prev + 1 + t],
        prev < fo || (prev - fo < f.len() && f[prev - fo].term == l[prev].term),
        logs_match(l, f),
        floor_agrees(l, f, floor),
    ensures
        logs_match(l, Replica::adopt(f, fo, floor, entries)),
        agree_below(l, Replica::adopt(f, fo, floor, entries), fo, prev + 1 + entries.len()),
{
    assert(agree_below(l, f, fo, prev + 1)) by {
        if prev >= fo {
            assert(f[prev - fo].index == prev);
            assert(l[prev].index == prev);
            assert(prefixes_agree(l, f, prev, prev - fo));
            assert forall|j: int|
                0 <= j < f.len() && fo + j < prev + 1 && fo + j < l.len() implies (#[trigger] f[j])
                == l[fo + j] by {
                let k = prev - fo - j;
                assert(f[(prev - fo) - k] == l[prev - k]);
            }
        }
    }
    lemma_adopt_preserves_matching(l, f, fo, floor, entries, prev + 1);
}

/// State-machine safety, committed half: replicas only apply committed
/// entries (`apply_ready_entries` walks exactly `(last_applied,
/// commit_index]`), and a committed prefix agrees with the leader's logical
/// log (`floor_agrees`, with each replica's commit index as its floor). Two
/// replicas that both committed absolute index `i` therefore hold — and so
/// apply — the same transition there.
pub proof fn lemma_state_machine_safety_committed(
    l: Seq<Entry>,
    a: Seq<Entry>,
    ao: int,
    floor_a: int,
    b: Seq<Entry>,
    bo: int,
    floor_b: int,
    i: int,
)
    requires
        contiguous_from(a, ao),
        contiguous_from(b, bo),
        floor_agrees(l, a, floor_a),
        floor_agrees(l, b, floor_b),
        ao <= i < ao + a.len(),
        bo <= i < bo + b.len(),
        i <= floor_a,
        i <= floor_b,
        i < l.len(),
    ensures
        a[i - ao] == b[i - bo],
        a[i - ao].transition == b[i - bo].transition,
{
    assert(a[i - ao].index == i);
    assert(b[i - bo].index == i);
    assert(a[i - ao] == l[i]);
    assert(b[i - bo] == l[i]);
}

/// Every entry either replica retains at an absolute index the other also
/// retains is identical there.
pub open spec fn preserves_entries(pre: Replica, post: Replica) -> bool {
    forall|a: int|
        pre.index_offset <= a < pre.abs_end() && post.index_offset <= a < post.abs_end()
            ==> (#[trigger] post.log@[a - post.index_offset]) == pre.log@[a - pre.index_offset]
}

/// Leader append-only, message half: no message a leader handles while it
/// remains leader touches its log — its tail never moves and no retained
/// entry changes. (A message carrying a newer term deposes it first; any
/// change after that is the follower's own adoption.)
pub proof fn lemma_leader_message_append_only(
    pre: Replica,
    post: Replica,
    actions: Seq<Action>,
    message: Message,
)
    requires
        pre.wf(),
        pre.state is Leader,
        post.state is Leader,
        Replica::leader_message_step(pre, post, actions, message),
    ensures
        post.log == pre.log,
        post.index_offset == pre.index_offset,
        preserves_entries(pre, post),
        post.abs_end() >= pre.abs_end(),
{
    match message {
        Message::AppendEntryResponse { from_id, term, success, last_index, mismatch_index } => {
            if term <= pre.current_term && pre.peer_ids@.contains(from_id) {
                let k = choose|k: int|
                    0 <= k < pre.peer_ids@.len() && pre.peer_ids@[k] == from_id;
                assert(0 <= k < pre.peer_ids@.len() && pre.peer_ids@[k] == from_id);
            }
        },
        Message::VoteRequest { from_id, term, last_log_index, last_log_term } => {
            if term > pre.current_term {
                let stepped = Replica::stepped_down(pre, term);
                assert(post.state == stepped.state);
                assert(false);
            }
        },
        Message::AppendEntryRequest { from_id, term, .. } => {
            if term > pre.current_term {
                let stepped = Replica::stepped_down(pre, term);
                assert(post.state == stepped.state);
                assert(false);
            }
        },
        Message::VoteResponse { term, .. } => {
            if term > pre.current_term {
                assert(post == Replica::stepped_down(pre, term));
                assert(false);
            }
        },
    }
}

/// Leader append-only, growth half: appending entries at the tail (as
/// `load_new_transitions` and `become_leader` do) keeps every existing entry
/// in place and never shortens the log.
pub proof fn lemma_extension_append_only(pre: Replica, post: Replica, added: Seq<Entry>)
    requires
        post.log@ == pre.log@ + added,
        post.index_offset == pre.index_offset,
    ensures
        preserves_entries(pre, post),
        post.abs_end() >= pre.abs_end(),
{
}

/// Leader append-only, compaction half: dropping a fully applied prefix into
/// a snapshot (as `apply_ready_entries` does) renumbers nothing — every
/// entry both logs retain is unchanged, and the tail never moves back.
pub proof fn lemma_compaction_append_only(pre: Replica, post: Replica, k: int)
    requires
        0 <= k <= pre.log@.len(),
        post.log@ == pre.log@.subrange(k, pre.log@.len() as int),
        post.index_offset == pre.index_offset + k,
    ensures
        preserves_entries(pre, post),
        post.abs_end() == pre.abs_end(),
{
}

/// Snapshot compaction: a well-formed replica retains no entry the snapshot
/// subsumes — every retained entry's absolute index is at least
/// `index_offset`. Together with `apply_ready_entries`'s contract (after
/// compaction `index_offset == last_applied + 1`) this is the compaction
/// invariant.
pub proof fn lemma_retained_entries_past_offset(r: Replica)
    requires
        r.wf(),
    ensures
        forall|i: int|
            0 <= i < r.log@.len() ==> (#[trigger] r.log@[i]).index >= r.index_offset,
{
}

} // verus!
