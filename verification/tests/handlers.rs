use little_raft::message::{Entry, EntryState, Message, Transition};
use little_raft::replica::{Action, Replica, Snapshot, State};

fn noop() -> Transition {
    Transition { id: 0 }
}

fn entry(id: u64, index: u64, term: u64) -> Entry {
    Entry { transition: Transition { id }, index, term }
}

#[test]
fn new_replica_without_snapshot_starts_at_sentinel() {
    let r = Replica::new(3, vec![1, 2], 7, noop(), None);
    assert_eq!(r.id, 3);
    assert_eq!(r.current_term, 0);
    assert!(matches!(r.state, State::Follower));
    assert_eq!(r.log.len(), 1);
    assert_eq!(r.log[0], entry(0, 0, 0));
    assert_eq!(r.index_offset, 0);
    assert_eq!(r.commit_index, 0);
    assert_eq!(r.last_applied, 0);
}

#[test]
fn new_replica_with_snapshot_resumes_past_it() {
    let snapshot = Snapshot { last_included_index: 9, last_included_term: 2 };
    let r = Replica::new(1, vec![0], 5, noop(), Some(snapshot));
    assert!(r.log.is_empty());
    assert_eq!(r.index_offset, 10);
    assert_eq!(r.commit_index, 9);
    assert_eq!(r.last_applied, 9);
    assert_eq!(r.snapshot, Some(snapshot));
}

#[test]
fn vote_denied_for_stale_term() {
    let mut r = Replica::new(0, vec![1], 0, noop(), None);
    r.current_term = 3;
    let actions = r.process_message(Message::VoteRequest {
        from_id: 1,
        term: 2,
        last_log_index: 10,
        last_log_term: 2,
    });
    assert_eq!(actions.len(), 1);
    assert!(matches!(
        actions[0],
        Action::SendMessage {
            peer_id: 1,
            message: Message::VoteResponse { from_id: 0, term: 3, vote_granted: false },
        }
    ));
    assert_eq!(r.voted_for, None);
}

#[test]
fn vote_denied_when_candidate_log_is_behind() {
    // Our tail is (index 2, term 3); a candidate whose tail term is lower is
    // not up to date, whatever its length.
    let mut r = Replica::new(0, vec![1], 0, noop(), None);
    r.log.push(entry(1, 1, 3));
    r.log.push(entry(2, 2, 3));
    r.current_term = 3;
    let actions = r.process_message(Message::VoteRequest {
        from_id: 1,
        term: 4,
        last_log_index: 9,
        last_log_term: 2,
    });
    assert_eq!(r.current_term, 4);
    assert!(actions.iter().any(|a| matches!(
        a,
        Action::SendMessage {
            peer_id: 1,
            message: Message::VoteResponse { vote_granted: false, .. },
        }
    )));
    assert_eq!(r.voted_for, None);

    // A candidate with a newer tail term gets the vote even with a shorter
    // log.
    let actions = r.process_message(Message::VoteRequest {
        from_id: 1,
        term: 4,
        last_log_index: 1,
        last_log_term: 4,
    });
    assert!(actions.iter().any(|a| matches!(
        a,
        Action::SendMessage {
            peer_id: 1,
            message: Message::VoteResponse { vote_granted: true, .. },
        }
    )));
    assert_eq!(r.voted_for, Some(1));
}

#[test]
fn vote_not_granted_twice_in_a_term() {
    let mut r = Replica::new(0, vec![1, 2], 0, noop(), None);
    r.process_message(Message::VoteRequest {
        from_id: 1,
        term: 1,
        last_log_index: 0,
        last_log_term: 0,
    });
    assert_eq!(r.voted_for, Some(1));
    let actions = r.process_message(Message::VoteRequest {
        from_id: 2,
        term: 1,
        last_log_index: 5,
        last_log_term: 1,
    });
    assert!(actions.iter().any(|a| matches!(
        a,
        Action::SendMessage {
            peer_id: 2,
            message: Message::VoteResponse { vote_granted: false, .. },
        }
    )));
    assert_eq!(r.voted_for, Some(1));

    // The same candidate asking again is granted again (idempotent).
    let actions = r.process_message(Message::VoteRequest {
        from_id: 1,
        term: 1,
        last_log_index: 0,
        last_log_term: 0,
    });
    assert!(actions.iter().any(|a| matches!(
        a,
        Action::SendMessage {
            peer_id: 1,
            message: Message::VoteResponse { vote_granted: true, .. },
        }
    )));
}

#[test]
fn append_refused_for_stale_term_without_hint() {
    let mut r = Replica::new(0, vec![1], 0, noop(), None);
    r.current_term = 5;
    let actions = r.process_message(Message::AppendEntryRequest {
        from_id: 1,
        term: 4,
        prev_log_index: 0,
        prev_log_term: 0,
        entries: vec![],
        commit_index: 0,
    });
    assert_eq!(actions.len(), 1);
    assert!(matches!(
        actions[0],
        Action::SendMessage {
            peer_id: 1,
            message: Message::AppendEntryResponse {
                from_id: 0,
                term: 5,
                success: false,
                last_index: 0,
                mismatch_index: None,
            },
        }
    ));
}

#[test]
fn append_mismatch_reports_prev_index() {
    let mut r = Replica::new(0, vec![1], 0, noop(), None);
    r.log.push(entry(1, 1, 1));
    r.current_term = 1;
    // prev_log_index beyond the tail.
    let actions = r.process_message(Message::AppendEntryRequest {
        from_id: 1,
        term: 1,
        prev_log_index: 4,
        prev_log_term: 1,
        entries: vec![],
        commit_index: 0,
    });
    assert!(matches!(
        actions[0],
        Action::SendMessage {
            peer_id: 1,
            message: Message::AppendEntryResponse {
                success: false,
                last_index: 1,
                mismatch_index: Some(4),
                ..
            },
        }
    ));
    // prev_log_index present but with the wrong term.
    let actions = r.process_message(Message::AppendEntryRequest {
        from_id: 1,
        term: 1,
        prev_log_index: 1,
        prev_log_term: 3,
        entries: vec![],
        commit_index: 0,
    });
    assert!(matches!(
        actions[0],
        Action::SendMessage {
            peer_id: 1,
            message: Message::AppendEntryResponse {
                success: false,
                mismatch_index: Some(1),
                ..
            },
        }
    ));
}

#[test]
fn append_truncates_conflicting_suffix() {
    let mut r = Replica::new(0, vec![1], 0, noop(), None);
    r.log.push(entry(1, 1, 1));
    r.log.push(entry(2, 2, 1));
    r.log.push(entry(3, 3, 1));
    r.current_term = 2;
    let actions = r.process_message(Message::AppendEntryRequest {
        from_id: 1,
        term: 2,
        prev_log_index: 1,
        prev_log_term: 1,
        entries: vec![entry(7, 2, 2), entry(8, 3, 2)],
        commit_index: 0,
    });
    assert_eq!(r.log.len(), 4);
    assert_eq!(r.log[2], entry(7, 2, 2));
    assert_eq!(r.log[3], entry(8, 3, 2));
    assert!(actions
        .iter()
        .any(|a| matches!(a, Action::RegisterLeader { leader_id: Some(1) })));
}

#[test]
fn append_commit_capped_by_local_tail() {
    let mut r = Replica::new(0, vec![1], 0, noop(), None);
    r.log.push(entry(1, 1, 1));
    r.current_term = 1;
    r.process_message(Message::AppendEntryRequest {
        from_id: 1,
        term: 1,
        prev_log_index: 1,
        prev_log_term: 1,
        entries: vec![],
        commit_index: 9,
    });
    assert_eq!(r.commit_index, 1);
}

#[test]
fn heartbeat_skips_peer_needing_snapshot() {
    // The leader compacted up to index 5; a peer whose next entry is 3 can
    // no longer be served from the log.
    let mut l = Replica::new(0, vec![1, 2], 0, noop(), None);
    l.log = vec![entry(6, 6, 1), entry(7, 7, 1)];
    l.index_offset = 6;
    l.snapshot = Some(Snapshot { last_included_index: 5, last_included_term: 1 });
    l.commit_index = 5;
    l.last_applied = 5;
    l.current_term = 1;
    l.state = State::Leader;
    l.next_index = vec![3, 8];
    l.match_index = vec![0, 7];

    let actions = l.broadcast_append_entry_request();
    assert_eq!(actions.len(), 1);
    match &actions[0] {
        Action::SendMessage { peer_id: 2, message: Message::AppendEntryRequest { prev_log_index, entries, .. } } => {
            assert_eq!(*prev_log_index, 7);
            assert!(entries.is_empty());
        }
        other => panic!("expected a heartbeat to peer 2, got {:?}", other),
    }
}

#[test]
fn leader_queues_new_transitions_and_follower_discards_them() {
    let mut l = Replica::new(0, vec![1], 0, noop(), None);
    l.current_term = 2;
    l.state = State::Leader;
    l.next_index = vec![1];
    l.match_index = vec![0];
    let actions = l.load_new_transitions(vec![Transition { id: 41 }, Transition { id: 42 }]);
    assert_eq!(l.log.len(), 3);
    assert_eq!(l.log[1], entry(41, 1, 2));
    assert_eq!(l.log[2], entry(42, 2, 2));
    assert_eq!(actions.len(), 2);
    assert!(matches!(
        actions[0],
        Action::RegisterTransitionState { transition_id: 41, state: EntryState::Queued }
    ));

    let mut f = Replica::new(1, vec![0], 0, noop(), None);
    let actions = f.load_new_transitions(vec![Transition { id: 9 }]);
    assert_eq!(f.log.len(), 1);
    assert!(actions.is_empty());
}

#[test]
fn leader_reports_committed_and_applied_states() {
    let mut l = Replica::new(0, vec![1, 2], 0, noop(), None);
    l.log.push(entry(5, 1, 1));
    l.current_term = 1;
    l.state = State::Leader;
    l.next_index = vec![2, 2];
    l.match_index = vec![1, 0];

    let actions = l.apply_ready_entries();
    assert_eq!(l.commit_index, 1);
    assert_eq!(l.last_applied, 1);
    assert_eq!(
        format!("{:?}", actions),
        format!(
            "{:?}",
            vec![
                Action::RegisterTransitionState {
                    transition_id: 5,
                    state: EntryState::Committed
                },
                Action::ApplyTransition { transition: Transition { id: 5 } },
                Action::RegisterTransitionState { transition_id: 5, state: EntryState::Applied },
            ]
        )
    );
}

#[test]
fn election_with_no_peers_wins_immediately() {
    let mut r = Replica::new(0, vec![], 0, noop(), None);
    let actions = r.become_candidate();
    assert!(matches!(r.state, State::Leader));
    assert_eq!(r.current_term, 1);
    assert_eq!(r.log.len(), 2);
    assert_eq!(r.log[1].term, 1);
    assert!(matches!(actions[0], Action::RegisterLeader { leader_id: Some(0) }));
}

#[test]
fn candidate_denies_vote_request_at_same_term() {
    let mut r = Replica::new(0, vec![1, 2], 0, noop(), None);
    r.become_candidate();
    assert_eq!(r.current_term, 1);
    let actions = r.process_message(Message::VoteRequest {
        from_id: 1,
        term: 1,
        last_log_index: 5,
        last_log_term: 1,
    });
    assert!(matches!(
        actions[0],
        Action::SendMessage {
            peer_id: 1,
            message: Message::VoteResponse { vote_granted: false, term: 1, .. },
        }
    ));
    assert!(matches!(r.state, State::Candidate));
}

#[test]
fn leader_steps_down_to_newer_term_response() {
    let mut l = Replica::new(0, vec![1], 0, noop(), None);
    l.current_term = 2;
    l.state = State::Leader;
    l.next_index = vec![2];
    l.match_index = vec![0];
    let actions = l.process_message(Message::AppendEntryResponse {
        from_id: 1,
        term: 7,
        success: false,
        last_index: 0,
        mismatch_index: None,
    });
    assert!(matches!(l.state, State::Follower));
    assert_eq!(l.current_term, 7);
    assert!(matches!(actions[0], Action::RegisterLeader { leader_id: None }));
}

#[test]
fn successful_response_advances_peer_bookkeeping() {
    let mut l = Replica::new(0, vec![1], 0, noop(), None);
    for i in 1..=4 {
        l.log.push(entry(i, i, 1));
    }
    l.current_term = 1;
    l.state = State::Leader;
    l.next_index = vec![2];
    l.match_index = vec![0];
    l.process_message(Message::AppendEntryResponse {
        from_id: 1,
        term: 1,
        success: true,
        last_index: 4,
        mismatch_index: None,
    });
    assert_eq!(l.next_index[0], 5);
    assert_eq!(l.match_index[0], 4);
}

#[test]
fn two_candidates_cannot_both_win_a_term() {
    // Three voters; candidates 10 and 11 both solicit votes at term 5. Each
    // voter backs at most one candidate per term, so at most one candidate
    // can assemble a majority.
    let mut voters: Vec<Replica> = (0..3)
        .map(|id| Replica::new(id, vec![10, 11], 0, noop(), None))
        .collect();
    let mut grants = [0, 0];
    for (slot, candidate) in [(0usize, 10u64), (1, 11)] {
        for v in voters.iter_mut() {
            let replies = v.process_message(Message::VoteRequest {
                from_id: candidate,
                term: 5,
                last_log_index: 0,
                last_log_term: 0,
            });
            if replies.iter().any(|a| {
                matches!(
                    a,
                    Action::SendMessage {
                        message: Message::VoteResponse { vote_granted: true, .. },
                        ..
                    }
                )
            }) {
                grants[slot] += 1;
            }
        }
    }
    assert_eq!(grants, [3, 0]);
    assert!(!(2 * grants[0] > 3 && 2 * grants[1] > 3));
}

#[test]
fn leader_never_disturbs_existing_entries() {
    let mut l = Replica::new(0, vec![1, 2], 0, noop(), None);
    for i in 1..=3 {
        l.log.push(entry(i, i, 1));
    }
    l.current_term = 1;
    l.state = State::Leader;
    l.next_index = vec![4, 4];
    l.match_index = vec![3, 0];
    let before = l.log.clone();

    l.load_new_transitions(vec![Transition { id: 50 }]);
    l.process_message(Message::AppendEntryResponse {
        from_id: 2,
        term: 1,
        success: false,
        last_index: 0,
        mismatch_index: Some(1),
    });
    l.apply_ready_entries();

    // Everything that was in the log is still there, unchanged and in place.
    assert!(l.log.len() > before.len());
    for (i, e) in before.iter().enumerate() {
        assert_eq!(l.log[i], *e);
    }
}

#[test]
fn compaction_keeps_only_entries_past_offset() {
    let mut r = Replica::new(0, vec![1], 3, noop(), None);
    for i in 1..=4 {
        r.log.push(entry(i, i, 1));
    }
    r.commit_index = 3;
    r.apply_ready_entries();
    // Compaction put index_offset at last_applied + 1 and every retained
    // entry sits at or past it.
    assert_eq!(r.last_applied, 3);
    assert_eq!(r.index_offset, 4);
    assert!(r.log.iter().all(|e| e.index >= r.index_offset));
    assert_eq!(r.log.len(), 1);
    assert_eq!(r.log[0].index, 4);
}

#[test]
fn leader_steps_down_to_higher_term_vote_request() {
    let mut l = Replica::new(0, vec![1, 2], 0, noop(), None);
    l.current_term = 2;
    l.state = State::Leader;
    l.next_index = vec![2, 2];
    l.match_index = vec![0, 0];
    let actions = l.process_message(Message::VoteRequest {
        from_id: 1,
        term: 3,
        last_log_index: 5,
        last_log_term: 3,
    });
    // The leader stepped down first, then judged the request as a follower
    // and granted the vote.
    assert!(matches!(l.state, State::Follower));
    assert_eq!(l.current_term, 3);
    assert_eq!(l.voted_for, Some(1));
    assert!(matches!(actions[0], Action::RegisterLeader { leader_id: None }));
    assert!(actions.iter().any(|a| matches!(
        a,
        Action::SendMessage {
            peer_id: 1,
            message: Message::VoteResponse { vote_granted: true, term: 3, .. },
        }
    )));
}

#[test]
fn leader_steps_down_to_higher_term_append_request() {
    let mut l = Replica::new(0, vec![1, 2], 0, noop(), None);
    l.current_term = 2;
    l.state = State::Leader;
    l.next_index = vec![2, 2];
    l.match_index = vec![0, 0];
    let actions = l.process_message(Message::AppendEntryRequest {
        from_id: 1,
        term: 3,
        prev_log_index: 0,
        prev_log_term: 0,
        entries: vec![entry(4, 1, 3)],
        commit_index: 0,
    });
    // Deposed, the entry adopted, and the sender registered as leader.
    assert!(matches!(l.state, State::Follower));
    assert_eq!(l.current_term, 3);
    assert_eq!(l.log.len(), 2);
    assert_eq!(l.log[1], entry(4, 1, 3));
    assert!(matches!(actions[0], Action::RegisterLeader { leader_id: None }));
    assert!(actions
        .iter()
        .any(|a| matches!(a, Action::RegisterLeader { leader_id: Some(1) })));
}

#[test]
fn leader_steps_down_to_higher_term_vote_response() {
    let mut l = Replica::new(0, vec![1, 2], 0, noop(), None);
    l.current_term = 2;
    l.state = State::Leader;
    l.next_index = vec![2, 2];
    l.match_index = vec![0, 0];
    let actions = l.process_message(Message::VoteResponse {
        from_id: 1,
        term: 6,
        vote_granted: false,
    });
    assert!(matches!(l.state, State::Follower));
    assert_eq!(l.current_term, 6);
    assert_eq!(actions.len(), 1);
    assert!(matches!(actions[0], Action::RegisterLeader { leader_id: None }));
}

#[test]
fn follower_and_candidate_adopt_newer_term_from_responses() {
    let mut f = Replica::new(0, vec![1, 2], 0, noop(), None);
    f.current_term = 1;
    let actions = f.process_message(Message::AppendEntryResponse {
        from_id: 1,
        term: 4,
        success: false,
        last_index: 0,
        mismatch_index: None,
    });
    assert!(actions.is_empty());
    assert_eq!(f.current_term, 4);
    assert!(matches!(f.state, State::Follower));

    let actions = f.process_message(Message::VoteResponse {
        from_id: 2,
        term: 5,
        vote_granted: true,
    });
    assert!(actions.is_empty());
    assert_eq!(f.current_term, 5);

    let mut c = Replica::new(0, vec![1, 2], 0, noop(), None);
    c.become_candidate();
    assert_eq!(c.current_term, 1);
    let actions = c.process_message(Message::AppendEntryResponse {
        from_id: 1,
        term: 3,
        success: true,
        last_index: 0,
        mismatch_index: None,
    });
    assert!(actions.is_empty());
    assert_eq!(c.current_term, 3);
    assert!(matches!(c.state, State::Follower));
    assert_eq!(c.current_votes, None);
}

#[test]
fn response_from_unknown_sender_is_ignored() {
    let mut l = Replica::new(0, vec![1], 0, noop(), None);
    l.current_term = 1;
    l.state = State::Leader;
    l.next_index = vec![5];
    l.match_index = vec![2];
    let actions = l.process_message(Message::AppendEntryResponse {
        from_id: 9,
        term: 1,
        success: true,
        last_index: 7,
        mismatch_index: None,
    });
    assert!(actions.is_empty());
    assert_eq!(l.next_index, vec![5]);
    assert_eq!(l.match_index, vec![2]);
}

#[test]
fn terms_and_commit_index_never_decrease() {
    let mut r = Replica::new(0, vec![1, 2], 0, noop(), None);
    r.log.push(entry(1, 1, 1));
    r.current_term = 3;
    r.commit_index = 1;
    r.last_applied = 1;
    let mut max_term = r.current_term;
    let mut max_commit = r.commit_index;
    let messages = vec![
        Message::VoteRequest { from_id: 1, term: 1, last_log_index: 0, last_log_term: 0 },
        Message::AppendEntryRequest {
            from_id: 2,
            term: 5,
            prev_log_index: 1,
            prev_log_term: 1,
            entries: vec![entry(2, 2, 5)],
            commit_index: 2,
        },
        Message::VoteRequest { from_id: 1, term: 4, last_log_index: 9, last_log_term: 9 },
        Message::AppendEntryRequest {
            from_id: 2,
            term: 2,
            prev_log_index: 0,
            prev_log_term: 0,
            entries: vec![],
            commit_index: 0,
        },
    ];
    for m in messages {
        r.process_message(m);
        assert!(r.current_term >= max_term);
        assert!(r.commit_index >= max_commit);
        max_term = r.current_term;
        max_commit = r.commit_index;
    }
}
