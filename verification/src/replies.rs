//! The exact text of every reply the interpreter can produce.

use vstd::prelude::*;

use crate::store::{EntryS, EventStore};
use crate::text::{dec_rep, u64_to_string};

verus! {

pub open spec fn added_reply_spec(sender: Seq<char>) -> Seq<char> {
    "Thank you "@ + sender + ". Event added to list."@
}

pub fn added_reply(sender: &str) -> (r: String)
    ensures
        r@ == added_reply_spec(sender@),
{
    let mut s = String::new();
    s.append("Thank you ");
    s.append(sender);
    s.append(". Event added to list.");
    proof {
        assert(s@ =~= added_reply_spec(sender@));
    }
    s
}

pub open spec fn add_failed_reply_spec(sender: Seq<char>) -> Seq<char> {
    sender + ": Your event could not be added. Please try again or invoke !cal help."@
}

pub fn add_failed_reply(sender: &str) -> (r: String)
    ensures
        r@ == add_failed_reply_spec(sender@),
{
    let mut s = String::new();
    s.append(sender);
    s.append(": Your event could not be added. Please try again or invoke !cal help.");
    proof {
        assert(s@ =~= add_failed_reply_spec(sender@));
    }
    s
}

pub open spec fn rm_missing_reply_spec(digits: Seq<char>) -> Seq<char> {
    "Sorry, event #"@ + digits + " does not exist."@
}

pub fn rm_missing_reply(digits: &str) -> (r: String)
    ensures
        r@ == rm_missing_reply_spec(digits@),
{
    let mut s = String::new();
    s.append("Sorry, event #");
    s.append(digits);
    s.append(" does not exist.");
    proof {
        assert(s@ =~= rm_missing_reply_spec(digits@));
    }
    s
}

pub open spec fn rm_removed_reply_spec(digits: Seq<char>, sender: Seq<char>) -> Seq<char> {
    "Event #"@ + digits + " removed by "@ + sender + "."@
}

pub fn rm_removed_reply(digits: &str, sender: &str) -> (r: String)
    ensures
        r@ == rm_removed_reply_spec(digits@, sender@),
{
    let mut s = String::new();
    s.append("Event #");
    s.append(digits);
    s.append(" removed by ");
    s.append(sender);
    s.append(".");
    proof {
        assert(s@ =~= rm_removed_reply_spec(digits@, sender@));
    }
    s
}

pub open spec fn help_reply_spec() -> Seq<char> {
    "Hi I'm Erised the event bot. What do you desire? Commands: cal list, cal add <event> | <datetime>, cal rm <id>, cal help. (Use !)"@
}

pub fn help_reply() -> (r: String)
    ensures
        r@ == help_reply_spec(),
{
    let mut s = String::new();
    s.append(
        "Hi I'm Erised the event bot. What do you desire? Commands: cal list, cal add <event> | <datetime>, cal rm <id>, cal help. (Use !)",
    );
    proof {
        assert(s@ =~= help_reply_spec());
    }
    s
}

pub open spec fn no_events_reply_spec() -> Seq<char> {
    "\nThere are no events currently."@
}

/// One table line of the `list` reply: identifier, description, host.
pub open spec fn list_row_spec(e: EntryS) -> Seq<char> {
    dec_rep(e.id as nat) + "\t"@ + e.description + "\t"@ + e.host + "\n"@
}

/// The table lines of the `list` reply, one per entry, oldest first.
pub open spec fn list_rows_spec(entries: Seq<EntryS>) -> Seq<char>
    decreases entries.len(),
{
    if entries.len() == 0 {
        Seq::empty()
    } else {
        list_rows_spec(entries.drop_last()) + list_row_spec(entries.last())
    }
}

pub open spec fn list_header_spec() -> Seq<char> {
    "Calendar List\n#\tDescription\tHost\n"@
}

/// The whole `list` reply: a fixed message when the store is empty, else
/// a header and one row per entry.
pub open spec fn list_reply_spec(entries: Seq<EntryS>) -> Seq<char> {
    if entries.len() == 0 {
        no_events_reply_spec()
    } else {
        list_header_spec() + list_rows_spec(entries)
    }
}

/// One table line ends in exactly one newline when the entry's
/// description and host contain none.
proof fn lemma_list_row_one_line(e: EntryS)
    requires
        crate::text::count_char(e.description, '\n') == 0,
        crate::text::count_char(e.host, '\n') == 0,
    ensures
        crate::text::count_char(list_row_spec(e), '\n') == 1,
{
    reveal_strlit("\t");
    reveal_strlit("\n");
    crate::text::lemma_dec_rep_digits(e.id as nat);
    assert forall|i: int| 0 <= i < dec_rep(e.id as nat).len() implies dec_rep(e.id as nat)[i]
        != '\n' by {
        assert(crate::text::is_digit_char(dec_rep(e.id as nat)[i]));
    }
    crate::text::lemma_count_char_absent(dec_rep(e.id as nat), '\n');
    assert(crate::text::count_char("\t"@, '\n') == 0) by {
        reveal_with_fuel(crate::text::count_char, 2);
        reveal_strlit("\t");
        assert("\t"@.drop_last() =~= Seq::<char>::empty());
    }
    assert(crate::text::count_char("\n"@, '\n') == 1) by {
        reveal_with_fuel(crate::text::count_char, 2);
        reveal_strlit("\n");
        assert("\n"@.drop_last() =~= Seq::<char>::empty());
    }
    crate::text::lemma_count_char_concat(dec_rep(e.id as nat), "\t"@, '\n');
    crate::text::lemma_count_char_concat(dec_rep(e.id as nat) + "\t"@, e.description, '\n');
    crate::text::lemma_count_char_concat(
        dec_rep(e.id as nat) + "\t"@ + e.description,
        "\t"@,
        '\n',
    );
    crate::text::lemma_count_char_concat(
        dec_rep(e.id as nat) + "\t"@ + e.description + "\t"@,
        e.host,
        '\n',
    );
    crate::text::lemma_count_char_concat(
        dec_rep(e.id as nat) + "\t"@ + e.description + "\t"@ + e.host,
        "\n"@,
        '\n',
    );
}

/// The list table holds exactly one line per entry, provided no entry's
/// description or host contains a newline of its own.
pub proof fn lemma_list_rows_count(entries: Seq<EntryS>)
    requires
        forall|i: int|
            0 <= i < entries.len() ==> crate::text::count_char(
                (#[trigger] entries[i]).description,
                '\n',
            ) == 0 && crate::text::count_char(entries[i].host, '\n') == 0,
    ensures
        crate::text::count_char(list_rows_spec(entries), '\n') == entries.len(),
    decreases entries.len(),
{
    if entries.len() > 0 {
        assert forall|i: int| 0 <= i < entries.drop_last().len() implies crate::text::count_char(
            (#[trigger] entries.drop_last()[i]).description,
            '\n',
        ) == 0 && crate::text::count_char(entries.drop_last()[i].host, '\n') == 0 by {
            assert(entries.drop_last()[i] == entries[i]);
        }
        lemma_list_rows_count(entries.drop_last());
        lemma_list_row_one_line(entries.last());
        crate::text::lemma_count_char_concat(
            list_rows_spec(entries.drop_last()),
            list_row_spec(entries.last()),
            '\n',
        );
    }
}

proof fn lemma_list_rows_take_step(entries: Seq<EntryS>, i: int)
    requires
        0 <= i < entries.len(),
    ensures
        list_rows_spec(entries.take(i + 1)) == list_rows_spec(entries.take(i)) + list_row_spec(
            entries[i],
        ),
{
    assert(entries.take(i + 1).drop_last() =~= entries.take(i));
    assert(entries.take(i + 1).last() == entries[i]);
}

pub fn list_reply(store: &EventStore) -> (r: String)
    ensures
        r@ == list_reply_spec(store.entries_view()),
{
    let n = store.count();
    if n == 0 {
        let mut s = String::new();
        s.append("\nThere are no events currently.");
        proof {
            assert(s@ =~= no_events_reply_spec());
        }
        return s;
    }
    let ghost entries = store.entries_view();
    let mut s = String::new();
    s.append("Calendar List\n#\tDescription\tHost\n");
    proof {
        assert(entries.take(0) =~= Seq::<EntryS>::empty());
        assert(s@ =~= list_header_spec() + list_rows_spec(entries.take(0)));
    }
    let mut i: usize = 0;
    while i < n
        invariant
            0 <= i <= n,
            n == entries.len(),
            entries == store.entries_view(),
            s@ == list_header_spec() + list_rows_spec(entries.take(i as int)),
        decreases n - i,
    {
        let e = store.entry_at(i);
        let num = u64_to_string(e.id);
        s.append(num.as_str());
        s.append("\t");
        s.append(e.description.as_str());
        s.append("\t");
        s.append(e.host.as_str());
        s.append("\n");
        proof {
            lemma_list_rows_take_step(entries, i as int);
            assert(s@ =~= list_header_spec() + list_rows_spec(entries.take(i as int + 1)));
        }
        i = i + 1;
    }
    proof {
        assert(entries.take(n as int) =~= entries);
    }
    s
}

} // verus!
