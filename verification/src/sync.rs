//! Decisions of the synchronization loop: login classification, cursor
//! management, phase transitions, and the handling of a decoded sync
//! response. The transport itself lives outside the library; it hands the
//! outcomes in as plain values.

use vstd::prelude::*;

use crate::matrix::{EventS, MatrixError, MatrixNextBatchResponse, Message, MsgS};
use crate::store::EntryS;
use crate::task::{room_step, Task};
use crate::text::is_blank_str;

verus! {

/// The states of the synchronization loop.
#[derive(Debug, PartialEq, Eq, Structural, Clone, Copy)]
pub enum SyncPhase {
    NotAuthenticated,
    AuthenticatedIdle,
    Polling,
    ErrorBackoff,
    ShuttingDown,
}

/// What the loop observes.
#[derive(Debug, PartialEq, Eq, Structural, Clone, Copy)]
pub enum SyncEvent {
    LoginSucceeded,
    LoginFailed,
    CursorPrimed,
    PollSucceeded,
    PollTransportFailed,
    BackoffElapsed,
    ShutdownRequested,
    LogoutFinished,
}

/// What the loop must do next. Delays are in milliseconds.
#[derive(Debug, PartialEq, Eq, Structural, Clone, Copy)]
pub enum SyncAction {
    AttemptLogin,
    RetryLoginAfterDelay { millis: u64 },
    PrimeCursor,
    IssuePoll,
    DeliverAndPersist,
    PollAfterDelay { millis: u64 },
    PerformLogout,
    RestartAfterDelay { millis: u64 },
    Hold,
}

/// The transition table of the loop: login retries forever with a fixed
/// backoff; a primed cursor starts polling; a transport failure backs off
/// and polls again with the cursor unchanged; a delivered poll polls on;
/// shutdown logs out and restarts after a pause. Events that a phase does
/// not expect leave it unchanged.
pub open spec fn transition_spec(phase: SyncPhase, event: SyncEvent) -> (SyncPhase, SyncAction) {
    match (phase, event) {
        (SyncPhase::NotAuthenticated, SyncEvent::LoginFailed) => (
            SyncPhase::NotAuthenticated,
            SyncAction::RetryLoginAfterDelay { millis: 30000 },
        ),
        (SyncPhase::NotAuthenticated, SyncEvent::LoginSucceeded) => (
            SyncPhase::AuthenticatedIdle,
            SyncAction::PrimeCursor,
        ),
        (SyncPhase::AuthenticatedIdle, SyncEvent::CursorPrimed) => (
            SyncPhase::Polling,
            SyncAction::IssuePoll,
        ),
        (SyncPhase::Polling, SyncEvent::PollSucceeded) => (
            SyncPhase::Polling,
            SyncAction::DeliverAndPersist,
        ),
        (SyncPhase::Polling, SyncEvent::PollTransportFailed) => (
            SyncPhase::ErrorBackoff,
            SyncAction::PollAfterDelay { millis: 5000 },
        ),
        (SyncPhase::Polling, SyncEvent::ShutdownRequested) => (
            SyncPhase::ShuttingDown,
            SyncAction::PerformLogout,
        ),
        (SyncPhase::ErrorBackoff, SyncEvent::BackoffElapsed) => (
            SyncPhase::Polling,
            SyncAction::IssuePoll,
        ),
        (SyncPhase::ShuttingDown, SyncEvent::LogoutFinished) => (
            SyncPhase::NotAuthenticated,
            SyncAction::RestartAfterDelay { millis: 10000 },
        ),
        _ => (phase, SyncAction::Hold),
    }
}

pub fn transition(phase: SyncPhase, event: SyncEvent) -> (r: (SyncPhase, SyncAction))
    ensures
        r == transition_spec(phase, event),
{
    match (phase, event) {
        (SyncPhase::NotAuthenticated, SyncEvent::LoginFailed) => (
            SyncPhase::NotAuthenticated,
            SyncAction::RetryLoginAfterDelay { millis: 30000 },
        ),
        (SyncPhase::NotAuthenticated, SyncEvent::LoginSucceeded) => (
            SyncPhase::AuthenticatedIdle,
            SyncAction::PrimeCursor,
        ),
        (SyncPhase::AuthenticatedIdle, SyncEvent::CursorPrimed) => (
            SyncPhase::Polling,
            SyncAction::IssuePoll,
        ),
        (SyncPhase::Polling, SyncEvent::PollSucceeded) => (
            SyncPhase::Polling,
            SyncAction::DeliverAndPersist,
        ),
        (SyncPhase::Polling, SyncEvent::PollTransportFailed) => (
            SyncPhase::ErrorBackoff,
            SyncAction::PollAfterDelay { millis: 5000 },
        ),
        (SyncPhase::Polling, SyncEvent::ShutdownRequested) => (
            SyncPhase::ShuttingDown,
            SyncAction::PerformLogout,
        ),
        (SyncPhase::ErrorBackoff, SyncEvent::BackoffElapsed) => (
            SyncPhase::Polling,
            SyncAction::IssuePoll,
        ),
        (SyncPhase::ShuttingDown, SyncEvent::LogoutFinished) => (
            SyncPhase::NotAuthenticated,
            SyncAction::RestartAfterDelay { millis: 10000 },
        ),
        (p, _) => (p, SyncAction::Hold),
    }
}

/// Classifies a login attempt. `status` is meaningful only when the
/// transport delivered a response; `token` is the access token its body
/// decoded to, when it decoded. A 2xx response whose body parsed to a
/// non-empty token is a success — login repeats until a non-empty token
/// is obtained, so an absent or empty token is a logon failure; a 5xx is
/// a server failure; everything else, including no response at all, is
/// some other failure.
pub fn classify_login(transport_ok: bool, status: u16, token: Option<String>) -> (r: Result<
    String,
    MatrixError,
>)
    ensures
        !transport_ok ==> r == Result::<String, MatrixError>::Err(MatrixError::OtherFailure),
        transport_ok && 200 <= status < 300 && token is Some && token->0@.len() > 0 ==> (
        r matches Ok(t) && t@ == token->0@),
        transport_ok && 200 <= status < 300 && (token is None || token->0@.len() == 0) ==> r
            == Result::<String, MatrixError>::Err(MatrixError::LogonFailure),
        transport_ok && 500 <= status < 600 ==> r == Result::<String, MatrixError>::Err(
            MatrixError::ServerFailure,
        ),
        transport_ok && !(200 <= status < 300) && !(500 <= status < 600) ==> r == Result::<
            String,
            MatrixError,
        >::Err(MatrixError::OtherFailure),
        r matches Ok(t) ==> t@.len() > 0,
{
    if !transport_ok {
        return Err(MatrixError::OtherFailure);
    }
    if 200 <= status && status < 300 {
        match token {
            Some(t) => {
                if t.as_str().is_empty() {
                    Err(MatrixError::LogonFailure)
                } else {
                    Ok(t)
                }
            },
            None => Err(MatrixError::LogonFailure),
        }
    } else if 500 <= status && status < 600 {
        Err(MatrixError::ServerFailure)
    } else {
        Err(MatrixError::OtherFailure)
    }
}

/// Turns the stored cursor into the one polling starts from: a missing,
/// empty or all-blank stored value means "start of history".
pub fn normalize_cursor(stored: Option<String>) -> (r: String)
    ensures
        match stored {
            None => r@ =~= Seq::<char>::empty(),
            Some(v) => {
                if crate::text::is_blank(v@) {
                    r@ =~= Seq::<char>::empty()
                } else {
                    r@ == v@
                }
            },
        },
{
    match stored {
        None => String::new(),
        Some(v) => {
            if is_blank_str(v.as_str()) {
                String::new()
            } else {
                v
            }
        },
    }
}

/// Only a non-empty cursor is written back to the cursor store.
pub fn should_persist(cursor: &str) -> (r: bool)
    ensures
        r == (cursor@.len() != 0),
{
    cursor.unicode_len() != 0
}

/// The outcome of one poll, as the transport reports it.
pub enum PollOutcome {
    TransportFailure,
    Delivered(MatrixNextBatchResponse),
}

/// The cursor to poll with next: unchanged on a transport failure, the
/// server's `next_batch` on success, whether or not rooms came along.
pub fn advance_cursor(cursor: String, outcome: &PollOutcome) -> (r: String)
    ensures
        outcome is TransportFailure ==> r@ == cursor@,
        outcome matches PollOutcome::Delivered(resp) ==> r@ == resp.next_batch@,
{
    match outcome {
        PollOutcome::TransportFailure => cursor,
        PollOutcome::Delivered(resp) => resp.next_batch.clone(),
    }
}

/// The rooms a sync response delivers, as (room identifier, events) pairs.
pub open spec fn rooms_view(resp: MatrixNextBatchResponse) -> Seq<(Seq<char>, Seq<EventS>)> {
    match resp.rooms {
        Some(rc) => rc.join.deep_view(),
        None => Seq::empty(),
    }
}

/// Total number of events across the delivered rooms.
pub open spec fn total_events(rooms: Seq<(Seq<char>, Seq<EventS>)>) -> nat
    decreases rooms.len(),
{
    if rooms.len() == 0 {
        0
    } else {
        total_events(rooms.drop_last()) + rooms.last().1.len()
    }
}

/// The concatenation of per-room reply sequences, in room order.
pub open spec fn concat_all(msgss: Seq<Seq<MsgS>>) -> Seq<MsgS>
    decreases msgss.len(),
{
    if msgss.len() == 0 {
        Seq::empty()
    } else {
        concat_all(msgss.drop_last()) + msgss.last()
    }
}

/// The rooms of a batch, interpreted in order: `stores` is the chain of
/// store states (one more than there are rooms, starting with the state
/// the batch found), and `msgss` the per-room replies; each consecutive
/// pair is related by that room's `room_step`.
pub open spec fn rooms_chain(
    entries: Seq<EntryS>,
    next_id: u64,
    bot: Seq<char>,
    rooms: Seq<(Seq<char>, Seq<EventS>)>,
    stores: Seq<(Seq<EntryS>, u64)>,
    msgss: Seq<Seq<MsgS>>,
) -> bool {
    &&& stores.len() == rooms.len() + 1
    &&& msgss.len() == rooms.len()
    &&& stores[0] == (entries, next_id)
    &&& forall|k: int|
        0 <= k < rooms.len() ==> room_step(
            stores[k].0,
            stores[k].1,
            bot,
            rooms[k].0,
            rooms[k].1,
            stores[k + 1].0,
            stores[k + 1].1,
            #[trigger] msgss[k],
        )
}

proof fn lemma_total_events_step(rooms: Seq<(Seq<char>, Seq<EventS>)>, i: int)
    requires
        0 <= i < rooms.len(),
    ensures
        total_events(rooms.take(i + 1)) == total_events(rooms.take(i)) + rooms[i].1.len(),
{
    assert(rooms.take(i + 1).drop_last() =~= rooms.take(i));
    assert(rooms.take(i + 1).last() == rooms[i]);
}

proof fn lemma_total_events_prefix(rooms: Seq<(Seq<char>, Seq<EventS>)>, i: int)
    requires
        0 <= i <= rooms.len(),
    ensures
        total_events(rooms.take(i)) <= total_events(rooms),
    decreases rooms.len() - i,
{
    if i == rooms.len() {
        assert(rooms.take(i) =~= rooms);
    } else {
        lemma_total_events_step(rooms, i);
        lemma_total_events_prefix(rooms, i + 1);
    }
}

/// Handles one decoded sync response: interprets every delivered room in
/// order, collects the replies, and returns the cursor to persist and
/// poll with next — the server's `next_batch`.
pub fn handle_sync_response(task: &mut Task, resp: &MatrixNextBatchResponse) -> (r: (
    String,
    Vec<Message>,
))
    requires
        old(task).store.wf(),
        old(task).store.next_id_view() + total_events(rooms_view(*resp)) <= u64::MAX,
    ensures
        final(task).store.wf(),
        final(task).sender_view() == old(task).sender_view(),
        r.0@ == resp.next_batch@,
        exists|stores: Seq<(Seq<EntryS>, u64)>, msgss: Seq<Seq<MsgS>>|
            {
                &&& #[trigger] rooms_chain(
                    old(task).store.entries_view(),
                    old(task).store.next_id_view(),
                    old(task).sender_view(),
                    rooms_view(*resp),
                    stores,
                    msgss,
                )
                &&& stores.last().0 == final(task).store.entries_view()
                &&& stores.last().1 == final(task).store.next_id_view()
                &&& r.1.deep_view() == concat_all(msgss)
            },
{
    let ghost e0 = old(task).store.entries_view();
    let ghost n0 = old(task).store.next_id_view();
    let ghost bot = old(task).sender_view();
    let ghost rv = rooms_view(*resp);
    let ghost mut stores: Seq<(Seq<EntryS>, u64)> = seq![(e0, n0)];
    let ghost mut msgss: Seq<Seq<MsgS>> = Seq::empty();
    let mut msgs: Vec<Message> = Vec::new();
    match &resp.rooms {
        None => {
            proof {
                assert(msgs.deep_view() =~= Seq::<MsgS>::empty());
                assert(rooms_chain(e0, n0, bot, rv, stores, msgss));
                assert(msgs.deep_view() == concat_all(msgss));
            }
        },
        Some(rc) => {
            let n = rc.join.len();
            proof {
                assert(rv == rc.join.deep_view());
                assert(msgs.deep_view() =~= Seq::<MsgS>::empty());
                assert(rv.take(0) =~= Seq::<(Seq<char>, Seq<EventS>)>::empty());
            }
            let mut i: usize = 0;
            while i < n
                invariant
                    0 <= i <= n,
                    n == rv.len(),
                    rv == rc.join.deep_view(),
                    task.store.wf(),
                    task.sender_view() == bot,
                    task.store.next_id_view() + total_events(rv) <= u64::MAX + total_events(
                        rv.take(i as int),
                    ),
                    stores.len() == i + 1,
                    msgss.len() == i,
                    stores[0] == (e0, n0),
                    stores.last().0 == task.store.entries_view(),
                    stores.last().1 == task.store.next_id_view(),
                    forall|k: int|
                        0 <= k < i ==> room_step(
                            stores[k].0,
                            stores[k].1,
                            bot,
                            rv[k].0,
                            rv[k].1,
                            stores[k + 1].0,
                            stores[k + 1].1,
                            #[trigger] msgss[k],
                        ),
                    msgs.deep_view() == concat_all(msgss),
                decreases n - i,
            {
                let pair = &rc.join[i];
                proof {
                    assert(rc.join.deep_view()[i as int] == rc.join@[i as int].deep_view());
                    assert(rv[i as int].0 == pair.0@);
                    assert(rv[i as int].1 == pair.1.timeline@);
                    lemma_total_events_step(rv, i as int);
                    lemma_total_events_prefix(rv, i as int + 1);
                }
                let ghost pre_msgss = msgss;
                let ghost pre_msgs = msgs.deep_view();
                let mut more = task.parse(&pair.0, &pair.1.timeline);
                let ghost more_msgs = more.deep_view();
                msgs.append(&mut more);
                proof {
                    stores = stores.push(
                        (task.store.entries_view(), task.store.next_id_view()),
                    );
                    msgss = msgss.push(more_msgs);
                    assert(msgss.drop_last() =~= pre_msgss);
                    assert(msgs.deep_view() =~= pre_msgs + more_msgs);
                    assert(msgs.deep_view() == concat_all(msgss));
                }
                i = i + 1;
            }
            proof {
                assert(rv.take(n as int) =~= rv);
                assert(rooms_chain(e0, n0, bot, rv, stores, msgss));
            }
        },
    }
    (resp.next_batch.clone(), msgs)
}

} // verus!
