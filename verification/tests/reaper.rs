use waywallen::reaper::member::register_frame;
use waywallen::reaper::bucket::{Bucket, FrameIdentity, SyncobjHandle};
use waywallen::reaper::frontier::{ReleaseFrontier, ReleaseFrontierInsertError};
use waywallen::reaper::state::{FrameRecord, ReaperState, RecordOutcome};
use waywallen::reaper::wait::{deadline_ns, CANCEL_POLL_INTERVAL_NS};

fn identity(point: u64) -> FrameIdentity {
    FrameIdentity {
        buffer_generation: 3,
        buffer_index: 1,
        release_point: point,
    }
}

#[test]
fn release_frontier_never_publishes_across_a_gap() {
    let mut frontier = ReleaseFrontier::new();

    frontier.insert(3, "three").unwrap();
    frontier.insert(1, "one").unwrap();
    assert_eq!(frontier.next_ready(), Some((1, &"one")));
    assert_eq!(frontier.commit_next(), Some("one"));
    assert_eq!(frontier.next_ready(), None);

    frontier.insert(2, "two").unwrap();
    assert_eq!(frontier.next_ready(), Some((2, &"two")));
    assert_eq!(frontier.commit_next(), Some("two"));
    assert_eq!(frontier.next_ready(), Some((3, &"three")));
    assert_eq!(frontier.commit_next(), Some("three"));
}

#[test]
fn release_frontier_rejects_invalid_duplicate_and_published_points() {
    let mut frontier = ReleaseFrontier::new();

    assert_eq!(
        frontier.insert(0, "zero"),
        Err(ReleaseFrontierInsertError::InvalidPoint)
    );
    frontier.insert(1, "one").unwrap();
    assert_eq!(
        frontier.insert(1, "replacement"),
        Err(ReleaseFrontierInsertError::Duplicate)
    );
    assert_eq!(frontier.commit_next(), Some("one"));
    assert_eq!(
        frontier.insert(1, "stale"),
        Err(ReleaseFrontierInsertError::AlreadyPublished)
    );
}

#[test]
fn bucket_completes_only_after_every_unique_member() {
    let mut bucket = Bucket::new(identity(7));
    bucket.register(2).unwrap();
    bucket.complete(0, None).unwrap();
    assert!(!bucket.ready());
    assert_eq!(bucket.complete(0, None), Err("duplicate member completion"));
    bucket.complete(1, None).unwrap();
    assert!(bucket.ready());
}

#[test]
fn frontier_commit_without_next_point_changes_nothing() {
    let mut frontier = ReleaseFrontier::new();
    frontier.insert(5, 50u32).unwrap();
    assert_eq!(frontier.commit_next(), None);
    assert_eq!(frontier.pending_count(), 1);
    assert_eq!(frontier.next_ready(), None);
}

#[test]
fn frontier_counts_pending_points() {
    let mut frontier = ReleaseFrontier::new();
    assert_eq!(frontier.pending_count(), 0);
    frontier.insert(2, 'b').unwrap();
    frontier.insert(4, 'd').unwrap();
    frontier.insert(1, 'a').unwrap();
    assert_eq!(frontier.pending_count(), 3);
    assert_eq!(frontier.commit_next(), Some('a'));
    assert_eq!(frontier.commit_next(), Some('b'));
    assert_eq!(frontier.commit_next(), None);
    assert_eq!(frontier.pending_count(), 1);
    assert_eq!(frontier.insert(2, 'x'), Err(ReleaseFrontierInsertError::AlreadyPublished));
    frontier.insert(3, 'c').unwrap();
    assert_eq!(frontier.commit_next(), Some('c'));
    assert_eq!(frontier.commit_next(), Some('d'));
    assert_eq!(frontier.pending_count(), 0);
}

#[test]
fn bucket_refuses_second_registration() {
    let mut bucket = Bucket::new(identity(2));
    assert_eq!(bucket.register(3), Ok(()));
    assert_eq!(bucket.register(3), Err("duplicate registration"));
    assert_eq!(bucket.register(4), Err("member count mismatch"));
    assert!(!bucket.ready());
}

#[test]
fn bucket_refuses_index_beyond_registered_count() {
    let mut bucket = Bucket::new(identity(2));
    bucket.register(1).unwrap();
    assert_eq!(bucket.complete(1, None), Err("member index out of range"));
    assert!(!bucket.ready());
    bucket.complete(0, Some(SyncobjHandle { raw: 9 })).unwrap();
    assert!(bucket.ready());
    assert_eq!(bucket.into_handles(), vec![SyncobjHandle { raw: 9 }]);
}

#[test]
fn bucket_completed_before_registration_becomes_ready_on_register() {
    let mut bucket = Bucket::new(identity(4));
    bucket.complete(0, None).unwrap();
    assert!(!bucket.ready());
    bucket.register(1).unwrap();
    assert!(bucket.ready());
}

#[test]
fn reaper_rejects_point_zero() {
    let mut reaper = ReaperState::new();
    let outcome = reaper.handle_record(FrameRecord::Register {
        identity: identity(0),
        expected_members: 1,
    });
    assert!(matches!(outcome, RecordOutcome::RejectedZeroPoint));
    assert_eq!(reaper.pending(), (0, 0));
}

#[test]
fn reaper_hands_out_a_bucket_once_every_member_is_done() {
    let mut reaper = ReaperState::new();
    let outcome = reaper.handle_record(FrameRecord::Register {
        identity: identity(1),
        expected_members: 2,
    });
    assert!(matches!(outcome, RecordOutcome::Pending));
    let outcome = reaper.handle_record(FrameRecord::Released {
        identity: identity(1),
        member_index: 0,
        consumer_handle: SyncobjHandle { raw: 11 },
    });
    assert!(matches!(outcome, RecordOutcome::Pending));
    assert_eq!(reaper.pending(), (1, 0));
    let outcome = reaper.handle_record(FrameRecord::Skipped {
        identity: identity(1),
        member_index: 1,
    });
    match outcome {
        RecordOutcome::Ready(bucket) => {
            assert_eq!(bucket.identity(), identity(1));
            assert_eq!(bucket.into_handles(), vec![SyncobjHandle { raw: 11 }]);
        }
        _ => panic!("bucket should be ready"),
    }
    assert_eq!(reaper.pending(), (0, 0));
}

#[test]
fn reaper_rejects_identity_mismatch_and_bad_updates() {
    let mut reaper = ReaperState::new();
    reaper.handle_record(FrameRecord::Register {
        identity: identity(5),
        expected_members: 2,
    });
    let other = FrameIdentity {
        buffer_generation: 4,
        buffer_index: 0,
        release_point: 5,
    };
    let outcome = reaper.handle_record(FrameRecord::Skipped {
        identity: other,
        member_index: 0,
    });
    assert!(matches!(outcome, RecordOutcome::RejectedIdentityMismatch));
    let outcome = reaper.handle_record(FrameRecord::Skipped {
        identity: identity(5),
        member_index: 7,
    });
    assert!(matches!(
        outcome,
        RecordOutcome::RejectedUpdate("member index out of range")
    ));
    assert_eq!(reaper.pending(), (1, 0));
}

#[test]
fn reaper_publishes_resolved_points_in_order() {
    let mut reaper = ReaperState::new();
    assert_eq!(reaper.accept_resolved(2, SyncobjHandle { raw: 2 }), Ok(()));
    assert_eq!(reaper.next_release(), None);
    assert_eq!(reaper.accept_resolved(1, SyncobjHandle { raw: 1 }), Ok(()));
    assert_eq!(reaper.next_release(), Some((1, &SyncobjHandle { raw: 1 })));
    assert_eq!(reaper.commit_release(), Some(SyncobjHandle { raw: 1 }));
    assert_eq!(reaper.commit_release(), Some(SyncobjHandle { raw: 2 }));
    assert_eq!(reaper.commit_release(), None);
    assert_eq!(
        reaper.accept_resolved(2, SyncobjHandle { raw: 3 }),
        Err(ReleaseFrontierInsertError::AlreadyPublished)
    );
}

#[test]
fn wait_deadline_is_checked() {
    assert_eq!(deadline_ns(2, 5, CANCEL_POLL_INTERVAL_NS), Some(2_250_000_005));
    assert_eq!(deadline_ns(i64::MAX / 1_000_000_000 + 1, 0, 0), None);
    assert_eq!(deadline_ns(i64::MAX / 1_000_000_000, 999_999_999, 0), None);
    assert_eq!(deadline_ns(0, i64::MAX, 1), None);
    assert_eq!(deadline_ns(0, 0, i64::MAX), Some(i64::MAX));
}

#[test]
fn members_report_exactly_once() {
    let (record, mut members) = register_frame(identity(4), 2);
    assert!(matches!(
        record,
        FrameRecord::Register { expected_members: 2, .. }
    ));
    assert_eq!(members.len(), 2);
    assert_eq!(members[1].member_index(), 1);
    assert_eq!(members[0].identity(), identity(4));
    let first = members[0].released(SyncobjHandle { raw: 3 });
    assert!(matches!(
        first,
        Some(FrameRecord::Released { member_index: 0, .. })
    ));
    assert!(members[0].skip().is_none());
    assert!(members[0].released(SyncobjHandle { raw: 4 }).is_none());
    assert!(!members[0].pending());
    assert!(members[1].pending());
    assert!(matches!(
        members[1].skip(),
        Some(FrameRecord::Skipped { member_index: 1, .. })
    ));
    assert!(members[1].skip().is_none());
}

#[test]
fn points_are_published_in_order_whatever_order_they_resolve_in() {
    let mut frontier: ReleaseFrontier<u32> = ReleaseFrontier::new();
    let mut published = Vec::new();
    for (point, value) in [(3u64, 30u32), (1, 10), (4, 40), (2, 20)] {
        assert!(frontier.insert(point, value).is_ok());
        while let Some(v) = frontier.commit_next() {
            published.push(v);
        }
    }
    assert_eq!(published, vec![10, 20, 30, 40]);
    assert_eq!(
        frontier.insert(2, 99),
        Err(ReleaseFrontierInsertError::AlreadyPublished)
    );
    assert_eq!(frontier.commit_next(), None);
}
