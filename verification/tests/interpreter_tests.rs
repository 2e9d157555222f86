use erised::matrix::{MatrixContent, MatrixEvent, MatrixTimeline, Message};
use erised::store::EventStore;
use erised::task::Task;

const BOT: &str = "@erised:matrix.org";
const ALICE: &str = "@alice:example.org";
const BOB: &str = "@bob:example.org";

fn msg(sender: &str, body: &str) -> MatrixEvent {
    MatrixEvent {
        content: Some(MatrixContent { body: Some(body.to_string()), msgtype: Some("m.text".to_string()) }),
        sender: Some(sender.to_string()),
    }
}

fn timeline(events: Vec<MatrixEvent>) -> MatrixTimeline {
    MatrixTimeline { events }
}

fn run(task: &mut Task, events: Vec<MatrixEvent>) -> Vec<Message> {
    task.parse(&"!room:example.org".to_string(), &timeline(events))
}

#[test]
fn malformed_events_produce_nothing() {
    let mut task = Task::new(BOT.to_string());
    let events = vec![
        MatrixEvent { content: None, sender: Some(ALICE.to_string()) },
        MatrixEvent {
            content: Some(MatrixContent { body: None, msgtype: None }),
            sender: Some(ALICE.to_string()),
        },
        MatrixEvent {
            content: Some(MatrixContent { body: Some("".to_string()), msgtype: None }),
            sender: Some(ALICE.to_string()),
        },
    ];
    let replies = run(&mut task, events);
    assert_eq!(replies.len(), 0);
    assert_eq!(task.store.count(), 0);
}

#[test]
fn own_messages_are_ignored() {
    let mut task = Task::new(BOT.to_string());
    let replies = run(
        &mut task,
        vec![
            msg(BOT, "!cal list"),
            msg(BOT, "!cal help"),
            msg(BOT, "!cal add trap | 1619902800"),
            msg(BOT, "!cal rm 1"),
        ],
    );
    assert_eq!(replies.len(), 0);
    assert_eq!(task.store.count(), 0);
}

#[test]
fn add_with_resolvable_datetime_inserts_one_entry() {
    let mut task = Task::new(BOT.to_string());
    let replies = run(&mut task, vec![msg(ALICE, "!cal add free lunch | 1619902800")]);
    assert_eq!(replies.len(), 1);
    assert_eq!(replies[0].room, "!room:example.org".to_string());
    assert!(replies[0].message.contains("added"));
    assert_eq!(replies[0].message, "Thank you @alice:example.org. Event added to list.");
    assert_eq!(task.store.count(), 1);
    let entry = task.store.entry_at(0);
    assert_eq!(entry.id, 1);
    assert_eq!(entry.host, ALICE.to_string());
    assert_eq!(entry.description, "free lunch".to_string());
    assert_eq!(entry.timestamp, 1619902800);
}

#[test]
fn add_accepts_wall_clock_styles() {
    let mut task = Task::new(BOT.to_string());
    let replies = run(&mut task, vec![msg(ALICE, "!cal add town hall | 2021-05-01 21:00:00 UTC")]);
    assert_eq!(replies.len(), 1);
    assert!(replies[0].message.contains("added"));
    assert_eq!(task.store.count(), 1);
    assert_eq!(task.store.entry_at(0).timestamp, 1619902800);
}

#[test]
fn add_with_empty_description_fails() {
    let mut task = Task::new(BOT.to_string());
    let replies = run(&mut task, vec![msg(ALICE, "!cal add  | tomorrow 5pm")]);
    assert_eq!(replies.len(), 1);
    assert_eq!(
        replies[0].message,
        "@alice:example.org: Your event could not be added. Please try again or invoke !cal help."
    );
    assert_eq!(task.store.count(), 0);
}

#[test]
fn add_with_unresolvable_datetime_fails() {
    let mut task = Task::new(BOT.to_string());
    let replies = run(&mut task, vec![msg(ALICE, "!cal add supper | not a datetime")]);
    assert_eq!(replies.len(), 1);
    assert!(replies[0].message.contains("could not be added"));
    assert_eq!(task.store.count(), 0);
}

#[test]
fn add_with_out_of_range_offset_fails_instead_of_aborting() {
    let mut task = Task::new(BOT.to_string());
    let replies = run(&mut task, vec![msg(ALICE, "!cal add x | 2021-04-30 21:14 +99:00")]);
    assert_eq!(replies.len(), 1);
    assert!(replies[0].message.contains("could not be added"));
    assert_eq!(task.store.count(), 0);

    let replies = run(&mut task, vec![msg(ALICE, "!cal add y | 2020-07-20+99:00")]);
    assert_eq!(replies.len(), 1);
    assert!(replies[0].message.contains("could not be added"));
    assert_eq!(task.store.count(), 0);

    let replies = run(&mut task, vec![msg(ALICE, "!cal add z | 2021-04-30 21:14-9900")]);
    assert_eq!(replies.len(), 1);
    assert!(replies[0].message.contains("could not be added"));
    assert_eq!(task.store.count(), 0);
}

#[test]
fn add_with_in_range_offset_still_resolves() {
    let mut task = Task::new(BOT.to_string());
    let replies = run(&mut task, vec![msg(ALICE, "!cal add call | 2014-04-26 13:13:44 +09:00")]);
    assert_eq!(replies.len(), 1);
    assert!(replies[0].message.contains("added"));
    assert_eq!(task.store.count(), 1);
}

#[test]
fn rm_of_absent_entry_reports_not_found() {
    let mut task = Task::new(BOT.to_string());
    let replies = run(&mut task, vec![msg(ALICE, "!cal rm 7")]);
    assert_eq!(replies.len(), 1);
    assert_eq!(replies[0].message, "Sorry, event #7 does not exist.");
    assert_eq!(task.store.count(), 0);
}

#[test]
fn rm_by_another_host_deletes_nothing() {
    let mut task = Task::new(BOT.to_string());
    run(&mut task, vec![msg(BOB, "!cal add standup | 1619902800")]);
    assert_eq!(task.store.count(), 1);
    let replies = run(&mut task, vec![msg(ALICE, "!cal rm 1")]);
    assert_eq!(replies.len(), 1);
    assert_eq!(replies[0].message, "Sorry, event #1 does not exist.");
    assert_eq!(task.store.count(), 1);
}

#[test]
fn rm_by_owner_deletes_exactly_one_row() {
    let mut task = Task::new(BOT.to_string());
    run(&mut task, vec![msg(ALICE, "!cal add standup | 1619902800")]);
    let replies = run(&mut task, vec![msg(ALICE, "!cal rm 1")]);
    assert_eq!(replies.len(), 1);
    assert_eq!(replies[0].message, "Event #1 removed by @alice:example.org.");
    assert_eq!(task.store.count(), 0);
}

#[test]
fn rm_replayed_reports_not_found_the_second_time() {
    let mut task = Task::new(BOT.to_string());
    run(&mut task, vec![msg(ALICE, "!cal add standup | 1619902800")]);
    let first = run(&mut task, vec![msg(ALICE, "!cal rm 1")]);
    assert_eq!(first[0].message, "Event #1 removed by @alice:example.org.");
    let second = run(&mut task, vec![msg(ALICE, "!cal rm 1")]);
    assert_eq!(second[0].message, "Sorry, event #1 does not exist.");
    assert_eq!(task.store.count(), 0);
}

#[test]
fn add_replayed_duplicates_the_entry() {
    let mut task = Task::new(BOT.to_string());
    run(&mut task, vec![msg(ALICE, "!cal add standup | 1619902800")]);
    run(&mut task, vec![msg(ALICE, "!cal add standup | 1619902800")]);
    assert_eq!(task.store.count(), 2);
    assert_eq!(task.store.entry_at(0).id, 1);
    assert_eq!(task.store.entry_at(1).id, 2);
    assert_eq!(task.store.entry_at(0).description, task.store.entry_at(1).description);
    assert_eq!(task.store.entry_at(0).host, task.store.entry_at(1).host);
}

#[test]
fn list_with_no_entries() {
    let mut task = Task::new(BOT.to_string());
    let replies = run(&mut task, vec![msg(ALICE, "!cal list")]);
    assert_eq!(replies.len(), 1);
    assert_eq!(replies[0].message, "\nThere are no events currently.");
}

#[test]
fn list_shows_one_row_per_entry() {
    let mut task = Task::new(BOT.to_string());
    run(&mut task, vec![msg(ALICE, "!cal add lunch | 1619902800")]);
    run(&mut task, vec![msg(BOB, "!cal add dinner | 1619902800")]);
    let replies = run(&mut task, vec![msg(ALICE, "!cal list")]);
    assert_eq!(replies.len(), 1);
    assert_eq!(
        replies[0].message,
        "Calendar List\n#\tDescription\tHost\n1\tlunch\t@alice:example.org\n2\tdinner\t@bob:example.org\n"
    );
}

#[test]
fn list_and_help_are_deduplicated_per_batch() {
    let mut task = Task::new(BOT.to_string());
    let replies = run(
        &mut task,
        vec![
            msg(ALICE, "!cal list"),
            msg(BOB, "!cal list"),
            msg(ALICE, "!cal help"),
            msg(BOB, "!cal help"),
        ],
    );
    assert_eq!(replies.len(), 2);
    assert_eq!(replies[0].message, "\nThere are no events currently.");
    assert!(replies[1].message.starts_with("Hi I'm Erised the event bot."));
}

#[test]
fn adds_and_rms_reply_in_event_order_before_list_and_help() {
    let mut task = Task::new(BOT.to_string());
    let replies = run(
        &mut task,
        vec![
            msg(ALICE, "!cal help"),
            msg(ALICE, "!cal add lunch | 1619902800"),
            msg(ALICE, "!cal rm 1"),
            msg(ALICE, "!cal list"),
        ],
    );
    assert_eq!(replies.len(), 4);
    assert!(replies[0].message.contains("added"));
    assert_eq!(replies[1].message, "Event #1 removed by @alice:example.org.");
    assert_eq!(replies[2].message, "\nThere are no events currently.");
    assert!(replies[3].message.starts_with("Hi I'm Erised the event bot."));
}

#[test]
fn list_reflects_the_batch_that_requested_it() {
    let mut task = Task::new(BOT.to_string());
    let replies = run(
        &mut task,
        vec![msg(ALICE, "!cal list"), msg(ALICE, "!cal add lunch | 1619902800")],
    );
    assert_eq!(replies.len(), 2);
    assert!(replies[0].message.contains("added"));
    assert_eq!(
        replies[1].message,
        "Calendar List\n#\tDescription\tHost\n1\tlunch\t@alice:example.org\n"
    );
}

#[test]
fn unmatched_text_is_silently_ignored() {
    let mut task = Task::new(BOT.to_string());
    let replies = run(
        &mut task,
        vec![msg(ALICE, "good morning"), msg(ALICE, "!cal nonsense"), msg(ALICE, "cal list")],
    );
    assert_eq!(replies.len(), 0);
    assert_eq!(task.store.count(), 0);
}

#[test]
fn a_prepared_store_is_adopted_unchanged() {
    let mut store = EventStore::new();
    let id = store.insert(BOB.to_string(), "sprint review".to_string(), 1619902800);
    assert_eq!(id, 1);
    assert_eq!(store.next_id(), 2);
    let mut task = Task::with_store(store, BOT.to_string());
    let replies = run(&mut task, vec![msg(ALICE, "!cal list")]);
    assert_eq!(
        replies[0].message,
        "Calendar List\n#\tDescription\tHost\n1\tsprint review\t@bob:example.org\n"
    );
}

#[test]
fn events_without_sender_are_attributed_to_nobody() {
    let mut task = Task::new(BOT.to_string());
    let replies = run(
        &mut task,
        vec![MatrixEvent {
            content: Some(MatrixContent {
                body: Some("!cal rm 3".to_string()),
                msgtype: None,
            }),
            sender: None,
        }],
    );
    assert_eq!(replies.len(), 1);
    assert_eq!(replies[0].message, "Sorry, event #3 does not exist.");
}
