use erised::matrix::{
    MatrixContent, MatrixError, MatrixEvent, MatrixNextBatchResponse, MatrixRoom,
    MatrixRoomCollection, MatrixTimeline,
};
use erised::sync::{
    advance_cursor, classify_login, handle_sync_response, normalize_cursor, should_persist,
    transition, PollOutcome, SyncAction, SyncEvent, SyncPhase,
};
use erised::task::Task;

const BOT: &str = "@erised:matrix.org";

#[test]
fn login_classification() {
    assert_eq!(classify_login(false, 0, None), Err(MatrixError::OtherFailure));
    assert_eq!(classify_login(true, 200, Some("tok".to_string())), Ok("tok".to_string()));
    assert_eq!(classify_login(true, 299, Some("tok".to_string())), Ok("tok".to_string()));
    assert_eq!(classify_login(true, 200, None), Err(MatrixError::LogonFailure));
    assert_eq!(classify_login(true, 200, Some("".to_string())), Err(MatrixError::LogonFailure));
    assert_eq!(classify_login(true, 500, Some("tok".to_string())), Err(MatrixError::ServerFailure));
    assert_eq!(classify_login(true, 503, None), Err(MatrixError::ServerFailure));
    assert_eq!(classify_login(true, 404, None), Err(MatrixError::OtherFailure));
    assert_eq!(classify_login(true, 302, None), Err(MatrixError::OtherFailure));
}

#[test]
fn stored_cursor_normalization() {
    assert_eq!(normalize_cursor(None), "".to_string());
    assert_eq!(normalize_cursor(Some("".to_string())), "".to_string());
    assert_eq!(normalize_cursor(Some("  \t ".to_string())), "".to_string());
    assert_eq!(normalize_cursor(Some("s72594_4483_1934".to_string())), "s72594_4483_1934".to_string());
    assert_eq!(normalize_cursor(Some(" s1 ".to_string())), " s1 ".to_string());
}

#[test]
fn only_non_empty_cursors_are_persisted() {
    assert!(!should_persist(""));
    assert!(should_persist("s72594_4483_1934"));
}

#[test]
fn transport_failure_keeps_the_cursor() {
    let kept = advance_cursor("s100".to_string(), &PollOutcome::TransportFailure);
    assert_eq!(kept, "s100".to_string());
}

#[test]
fn successful_poll_advances_to_next_batch() {
    let without_rooms = MatrixNextBatchResponse { next_batch: "s200".to_string(), rooms: None };
    assert_eq!(advance_cursor("s100".to_string(), &PollOutcome::Delivered(without_rooms)), "s200".to_string());
    let with_rooms = MatrixNextBatchResponse {
        next_batch: "s300".to_string(),
        rooms: Some(MatrixRoomCollection { join: Vec::new() }),
    };
    assert_eq!(advance_cursor("s100".to_string(), &PollOutcome::Delivered(with_rooms)), "s300".to_string());
}

#[test]
fn transition_table() {
    assert_eq!(
        transition(SyncPhase::NotAuthenticated, SyncEvent::LoginFailed),
        (SyncPhase::NotAuthenticated, SyncAction::RetryLoginAfterDelay { millis: 30000 })
    );
    assert_eq!(
        transition(SyncPhase::NotAuthenticated, SyncEvent::LoginSucceeded),
        (SyncPhase::AuthenticatedIdle, SyncAction::PrimeCursor)
    );
    assert_eq!(
        transition(SyncPhase::AuthenticatedIdle, SyncEvent::CursorPrimed),
        (SyncPhase::Polling, SyncAction::IssuePoll)
    );
    assert_eq!(
        transition(SyncPhase::Polling, SyncEvent::PollSucceeded),
        (SyncPhase::Polling, SyncAction::DeliverAndPersist)
    );
    assert_eq!(
        transition(SyncPhase::Polling, SyncEvent::PollTransportFailed),
        (SyncPhase::ErrorBackoff, SyncAction::PollAfterDelay { millis: 5000 })
    );
    assert_eq!(
        transition(SyncPhase::Polling, SyncEvent::ShutdownRequested),
        (SyncPhase::ShuttingDown, SyncAction::PerformLogout)
    );
    assert_eq!(
        transition(SyncPhase::ErrorBackoff, SyncEvent::BackoffElapsed),
        (SyncPhase::Polling, SyncAction::IssuePoll)
    );
    assert_eq!(
        transition(SyncPhase::ShuttingDown, SyncEvent::LogoutFinished),
        (SyncPhase::NotAuthenticated, SyncAction::RestartAfterDelay { millis: 10000 })
    );
    // Unexpected events hold the phase.
    assert_eq!(
        transition(SyncPhase::NotAuthenticated, SyncEvent::PollSucceeded),
        (SyncPhase::NotAuthenticated, SyncAction::Hold)
    );
    assert_eq!(
        transition(SyncPhase::Polling, SyncEvent::LoginSucceeded),
        (SyncPhase::Polling, SyncAction::Hold)
    );
}

fn chat(sender: &str, body: &str) -> MatrixEvent {
    MatrixEvent {
        content: Some(MatrixContent { body: Some(body.to_string()), msgtype: None }),
        sender: Some(sender.to_string()),
    }
}

#[test]
fn sync_response_without_rooms_only_moves_the_cursor() {
    let mut task = Task::new(BOT.to_string());
    let resp = MatrixNextBatchResponse { next_batch: "s2".to_string(), rooms: None };
    let (cursor, replies) = handle_sync_response(&mut task, &resp);
    assert_eq!(cursor, "s2".to_string());
    assert_eq!(replies.len(), 0);
    assert_eq!(task.store.count(), 0);
}

#[test]
fn sync_response_processes_each_room_in_order() {
    let mut task = Task::new(BOT.to_string());
    let resp = MatrixNextBatchResponse {
        next_batch: "s3".to_string(),
        rooms: Some(MatrixRoomCollection {
            join: vec![
                (
                    "!one:example.org".to_string(),
                    MatrixRoom {
                        timeline: MatrixTimeline {
                            events: vec![chat("@alice:example.org", "!cal add lunch | 1619902800")],
                        },
                    },
                ),
                (
                    "!two:example.org".to_string(),
                    MatrixRoom {
                        timeline: MatrixTimeline {
                            events: vec![chat("@bob:example.org", "!cal list")],
                        },
                    },
                ),
            ],
        }),
    };
    let (cursor, replies) = handle_sync_response(&mut task, &resp);
    assert_eq!(cursor, "s3".to_string());
    assert_eq!(replies.len(), 2);
    assert_eq!(replies[0].room, "!one:example.org".to_string());
    assert_eq!(replies[0].message, "Thank you @alice:example.org. Event added to list.");
    assert_eq!(replies[1].room, "!two:example.org".to_string());
    assert_eq!(
        replies[1].message,
        "Calendar List\n#\tDescription\tHost\n1\tlunch\t@alice:example.org\n"
    );
    assert_eq!(task.store.count(), 1);
    assert_eq!(task.store.next_id(), 2);
}
