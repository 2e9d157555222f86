//! The interpreter: turns one room timeline into calendar-store mutations
//! and replies.
//!
//! Interpretation has three steps. Scanning filters the eligible events
//! (present, non-empty body; sender other than the bot) and collects their
//! commands: `add` and `rm` become an ordered sequence of acts, `list` and
//! `help` become flags so that each produces at most one reply per batch.
//! Resolution turns each `add`'s datetime expression into epoch seconds
//! through the outside parser; nothing is assumed of its outcome. Applying
//! the resolved acts mutates the store and produces the replies, in event
//! order, with the `list` and `help` replies last; the `list` table shows
//! the store as the batch left it.

use vstd::prelude::*;

use crate::grammar::{cmd_of, parse_command, CmdS, Command};
use crate::matrix::{EventS, MatrixEvent, MatrixTimeline, Message, MsgS};
use crate::store::{find_match, EntryS, EventStore};
use crate::text::{digit_val, digits_value, is_digit, is_digit_char, starts_with_at, is_space_char};

verus! {

/// The sender identity of an event; absent senders read as empty.
pub open spec fn sender_of(e: EventS) -> Seq<char> {
    match e.sender {
        Some(s) => s,
        None => Seq::empty(),
    }
}

/// The body text of an event; absent bodies read as empty.
pub open spec fn body_of(e: EventS) -> Seq<char> {
    match e.content {
        Some(c) => match c.body {
            Some(b) => b,
            None => Seq::empty(),
        },
        None => Seq::empty(),
    }
}

/// Whether the interpreter looks at an event at all: it must carry a
/// non-empty body and must not come from the bot itself.
pub open spec fn eligible(e: EventS, bot: Seq<char>) -> bool {
    &&& e.content is Some
    &&& e.content->0.body is Some
    &&& body_of(e).len() > 0
    &&& sender_of(e) != bot
}

/// A store-touching command together with its sender.
pub ghost enum ActS {
    Add { sender: Seq<char>, description: Seq<char>, when_expr: Seq<char> },
    Rm { sender: Seq<char>, digits: Seq<char> },
}

/// The act an event contributes: one for `add` or `rm`, none otherwise.
pub open spec fn act_of_event(e: EventS, bot: Seq<char>) -> Seq<ActS> {
    if eligible(e, bot) {
        match cmd_of(body_of(e)) {
            Some(CmdS::Add { description, when_expr }) => seq![
                ActS::Add { sender: sender_of(e), description, when_expr },
            ],
            Some(CmdS::Rm { digits }) => seq![ActS::Rm { sender: sender_of(e), digits }],
            _ => Seq::empty(),
        }
    } else {
        Seq::empty()
    }
}

/// The `add` and `rm` acts of a timeline, in event order.
pub open spec fn acts_of(events: Seq<EventS>, bot: Seq<char>) -> Seq<ActS>
    decreases events.len(),
{
    if events.len() == 0 {
        Seq::empty()
    } else {
        acts_of(events.drop_last(), bot) + act_of_event(events.last(), bot)
    }
}

/// Whether some eligible event asked for the entry list.
pub open spec fn wants_list(events: Seq<EventS>, bot: Seq<char>) -> bool
    decreases events.len(),
{
    if events.len() == 0 {
        false
    } else {
        wants_list(events.drop_last(), bot) || (eligible(events.last(), bot) && cmd_of(
            body_of(events.last()),
        ) == Some(CmdS::List))
    }
}

/// Whether some eligible event asked for the usage message.
pub open spec fn wants_help(events: Seq<EventS>, bot: Seq<char>) -> bool
    decreases events.len(),
{
    if events.len() == 0 {
        false
    } else {
        wants_help(events.drop_last(), bot) || (eligible(events.last(), bot) && cmd_of(
            body_of(events.last()),
        ) == Some(CmdS::Help))
    }
}

pub proof fn lemma_acts_len(events: Seq<EventS>, bot: Seq<char>)
    ensures
        acts_of(events, bot).len() <= events.len(),
    decreases events.len(),
{
    if events.len() > 0 {
        lemma_acts_len(events.drop_last(), bot);
    }
}

proof fn lemma_scan_step(events: Seq<EventS>, bot: Seq<char>, i: int)
    requires
        0 <= i < events.len(),
    ensures
        acts_of(events.take(i + 1), bot) == acts_of(events.take(i), bot) + act_of_event(
            events[i],
            bot,
        ),
        wants_list(events.take(i + 1), bot) == (wants_list(events.take(i), bot) || (eligible(
            events[i],
            bot,
        ) && cmd_of(body_of(events[i])) == Some(CmdS::List))),
        wants_help(events.take(i + 1), bot) == (wants_help(events.take(i), bot) || (eligible(
            events[i],
            bot,
        ) && cmd_of(body_of(events[i])) == Some(CmdS::Help))),
{
    assert(events.take(i + 1).drop_last() =~= events.take(i));
    assert(events.take(i + 1).last() == events[i]);
}

/// Executable act, as built by scanning.
#[derive(Debug, PartialEq, Eq)]
pub enum Act {
    Add { sender: String, description: String, when_expr: String },
    Rm { sender: String, digits: String },
}

impl View for Act {
    type V = ActS;

    open spec fn view(&self) -> ActS {
        match self {
            Act::Add { sender, description, when_expr } => ActS::Add {
                sender: sender@,
                description: description@,
                when_expr: when_expr@,
            },
            Act::Rm { sender, digits } => ActS::Rm { sender: sender@, digits: digits@ },
        }
    }
}

pub open spec fn view_acts(s: Seq<Act>) -> Seq<ActS> {
    s.map_values(|a: Act| a@)
}

fn scan_event(e: &MatrixEvent, bot: &str) -> (r: (Option<Act>, bool, bool))
    ensures
        (match r.0 {
            Some(a) => seq![a@],
            None => Seq::<ActS>::empty(),
        }) == act_of_event(e@, bot@),
        r.1 == (eligible(e@, bot@) && cmd_of(body_of(e@)) == Some(CmdS::List)),
        r.2 == (eligible(e@, bot@) && cmd_of(body_of(e@)) == Some(CmdS::Help)),
{
    match &e.content {
        None => (None, false, false),
        Some(content) => match &content.body {
            None => (None, false, false),
            Some(body) => {
                let sender: String = match &e.sender {
                    Some(s) => s.clone(),
                    None => String::new(),
                };
                if body.unicode_len() == 0 || crate::text::str_eq(sender.as_str(), bot) {
                    return (None, false, false);
                }
                match parse_command(body.as_str()) {
                    Some(Command::List) => (None, true, false),
                    Some(Command::Help) => (None, false, true),
                    Some(Command::Add { description, when_expr }) => (
                        Some(Act::Add { sender, description, when_expr }),
                        false,
                        false,
                    ),
                    Some(Command::Rm { digits }) => (
                        Some(Act::Rm { sender, digits }),
                        false,
                        false,
                    ),
                    None => (None, false, false),
                }
            }
        },
    }
}

/// Scans a timeline: the `add`/`rm` acts in event order, then whether the
/// batch asked for the list, then whether it asked for help.
pub fn scan(timeline: &MatrixTimeline, bot: &str) -> (r: (Vec<Act>, bool, bool))
    ensures
        view_acts(r.0@) == acts_of(timeline@, bot@),
        r.1 == wants_list(timeline@, bot@),
        r.2 == wants_help(timeline@, bot@),
{
    let ghost evs = timeline@;
    let n = timeline.events.len();
    let mut acts: Vec<Act> = Vec::new();
    let mut want_list = false;
    let mut want_help = false;
    proof {
        assert(evs.take(0) =~= Seq::<EventS>::empty());
        assert(view_acts(acts@) =~= Seq::<ActS>::empty());
    }
    let mut i: usize = 0;
    while i < n
        invariant
            0 <= i <= n,
            n == evs.len(),
            evs == timeline@,
            view_acts(acts@) == acts_of(evs.take(i as int), bot@),
            want_list == wants_list(evs.take(i as int), bot@),
            want_help == wants_help(evs.take(i as int), bot@),
        decreases n - i,
    {
        let e = &timeline.events[i];
        proof {
            assert(e@ == evs[i as int]);
            lemma_scan_step(evs, bot@, i as int);
        }
        let (act_opt, is_list, is_help) = scan_event(e, bot);
        match act_opt {
            Some(a) => {
                acts.push(a);
                proof {
                    assert(view_acts(acts@) =~= acts_of(evs.take(i as int + 1), bot@));
                }
            },
            None => {
                proof {
                    assert(view_acts(acts@) =~= acts_of(evs.take(i as int + 1), bot@));
                }
            },
        }
        if is_list {
            want_list = true;
        }
        if is_help {
            want_help = true;
        }
        i = i + 1;
    }
    proof {
        assert(evs.take(n as int) =~= evs);
    }
    (acts, want_list, want_help)
}

/// An act whose datetime expression has been resolved: `when` is the
/// epoch second the outside parser produced, or `None` when it failed.
pub ghost enum RActS {
    Add { sender: Seq<char>, description: Seq<char>, when: Option<i64> },
    Rm { sender: Seq<char>, digits: Seq<char> },
}

/// Resolution keeps everything but replaces the datetime expression of an
/// `add` with some outcome; `rm` acts pass through unchanged.
pub open spec fn resolves_one(a: ActS, r: RActS) -> bool {
    match a {
        ActS::Add { sender, description, when_expr } => match r {
            RActS::Add { sender: s2, description: d2, when: _ } => s2 == sender && d2
                == description,
            _ => false,
        },
        ActS::Rm { sender, digits } => r == (RActS::Rm { sender, digits }),
    }
}

pub open spec fn resolves(acts: Seq<ActS>, racts: Seq<RActS>) -> bool {
    &&& racts.len() == acts.len()
    &&& forall|i: int| 0 <= i < acts.len() ==> resolves_one(acts[i], #[trigger] racts[i])
}

/// The digit run of an `rm` act is well formed: non-empty, digits only.
/// Scanning only produces such acts.
pub open spec fn ract_wf(r: RActS) -> bool {
    match r {
        RActS::Rm { sender: _, digits } => digits.len() > 0 && (forall|i: int|
            0 <= i < digits.len() ==> is_digit_char(digits[i])),
        RActS::Add { .. } => true,
    }
}

pub open spec fn act_wf(a: ActS) -> bool {
    match a {
        ActS::Rm { sender: _, digits } => digits.len() > 0 && (forall|i: int|
            0 <= i < digits.len() ==> is_digit_char(digits[i])),
        ActS::Add { .. } => true,
    }
}

/// What one resolved act does to the store, and the one reply it produces.
pub open spec fn apply_act(entries: Seq<EntryS>, next_id: u64, a: RActS, room: Seq<char>) -> (
    Seq<EntryS>,
    u64,
    Seq<MsgS>,
) {
    match a {
        RActS::Add { sender, description, when } => {
            if description.len() > 0 && when is Some {
                (
                    entries.push(
                        EntryS { id: next_id, host: sender, description, timestamp: when->0 },
                    ),
                    ((next_id + 1) as u64),
                    seq![MsgS { room, message: crate::replies::added_reply_spec(sender) }],
                )
            } else {
                (
                    entries,
                    next_id,
                    seq![MsgS { room, message: crate::replies::add_failed_reply_spec(sender) }],
                )
            }
        },
        RActS::Rm { sender, digits } => {
            let k = find_match(entries, sender, digits_value(digits), 0);
            if k < entries.len() {
                (
                    entries.remove(k),
                    next_id,
                    seq![
                        MsgS {
                            room,
                            message: crate::replies::rm_removed_reply_spec(digits, sender),
                        },
                    ],
                )
            } else {
                (
                    entries,
                    next_id,
                    seq![
                        MsgS {
                            room,
                            message: crate::replies::rm_missing_reply_spec(digits),
                        },
                    ],
                )
            }
        },
    }
}

/// Folds `apply_act` over the acts, front to back, concatenating replies.
pub open spec fn apply_acts(entries: Seq<EntryS>, next_id: u64, racts: Seq<RActS>, room: Seq<char>) -> (
    Seq<EntryS>,
    u64,
    Seq<MsgS>,
)
    decreases racts.len(),
{
    if racts.len() == 0 {
        (entries, next_id, Seq::empty())
    } else {
        let t1 = apply_act(entries, next_id, racts.first(), room);
        let t2 = apply_acts(t1.0, t1.1, racts.drop_first(), room);
        (t2.0, t2.1, t1.2 + t2.2)
    }
}

/// The whole interpretation of a scanned batch: acts first, then the
/// `list` reply over the mutated store, then the `help` reply.
pub open spec fn interp(
    entries: Seq<EntryS>,
    next_id: u64,
    racts: Seq<RActS>,
    want_list: bool,
    want_help: bool,
    room: Seq<char>,
) -> (Seq<EntryS>, u64, Seq<MsgS>) {
    let t = apply_acts(entries, next_id, racts, room);
    let m1 = if want_list {
        t.2.push(MsgS { room, message: crate::replies::list_reply_spec(t.0) })
    } else {
        t.2
    };
    let m2 = if want_help {
        m1.push(MsgS { room, message: crate::replies::help_reply_spec() })
    } else {
        m1
    };
    (t.0, t.1, m2)
}

pub proof fn lemma_apply_acts_next_id(
    entries: Seq<EntryS>,
    next_id: u64,
    racts: Seq<RActS>,
    room: Seq<char>,
)
    ensures
        apply_acts(entries, next_id, racts, room).1 <= next_id + racts.len(),
    decreases racts.len(),
{
    if racts.len() > 0 {
        let t1 = apply_act(entries, next_id, racts.first(), room);
        lemma_apply_acts_next_id(t1.0, t1.1, racts.drop_first(), room);
    }
}

pub proof fn lemma_apply_acts_snoc(
    entries: Seq<EntryS>,
    next_id: u64,
    racts: Seq<RActS>,
    a: RActS,
    room: Seq<char>,
)
    ensures
        ({
            let t1 = apply_acts(entries, next_id, racts, room);
            let t2 = apply_act(t1.0, t1.1, a, room);
            &&& apply_acts(entries, next_id, racts.push(a), room).0 == t2.0
            &&& apply_acts(entries, next_id, racts.push(a), room).1 == t2.1
            &&& apply_acts(entries, next_id, racts.push(a), room).2 =~= t1.2 + t2.2
        }),
    decreases racts.len(),
{
    reveal_with_fuel(apply_acts, 3);
    if racts.len() == 0 {
        let ta = apply_act(entries, next_id, a, room);
        assert(racts.push(a).first() == a);
        assert(racts.push(a).drop_first() =~= Seq::<RActS>::empty());
        assert(apply_acts(entries, next_id, racts.push(a), room).2 =~= ta.2);
        assert(apply_acts(entries, next_id, racts, room).2 =~= Seq::<MsgS>::empty());
        assert(Seq::<MsgS>::empty() + ta.2 =~= ta.2);
    } else {
        assert(racts.push(a).first() == racts.first());
        assert(racts.push(a).drop_first() =~= racts.drop_first().push(a));
        let t1 = apply_act(entries, next_id, racts.first(), room);
        lemma_apply_acts_snoc(t1.0, t1.1, racts.drop_first(), a, room);
        let u1 = apply_acts(t1.0, t1.1, racts.drop_first(), room);
        let u2 = apply_act(u1.0, u1.1, a, room);
        assert(t1.2 + (u1.2 + u2.2) =~= (t1.2 + u1.2) + u2.2);
    }
}

proof fn lemma_cmd_rm_digits_wf(s: Seq<char>)
    ensures
        match cmd_of(s) {
            Some(CmdS::Rm { digits }) => digits.len() > 0 && (forall|m: int|
                0 <= m < digits.len() ==> is_digit_char(digits[m])),
            _ => true,
        },
{
    let i = crate::text::first_non_space(s, 0);
    crate::text::lemma_first_non_space(s, 0);
    if i + 4 <= s.len() && s[i] == '!' && crate::grammar::cal_word_at(s, i + 1) {
        let j = crate::text::first_non_space(s, i + 4);
        crate::text::lemma_first_non_space(s, i + 4);
        if j != i + 4 && !starts_with_at(s, "list"@, j) && !starts_with_at(s, "help"@, j) && !(
        starts_with_at(s, "add"@, j) && j + 3 < s.len() && is_space_char(s[j + 3]))
            && starts_with_at(s, "rm"@, j) && j + 2 < s.len() && is_space_char(s[j + 2]) {
            let k = crate::text::first_non_space(s, j + 2);
            crate::text::lemma_first_non_space(s, j + 2);
            if k < s.len() && is_digit_char(s[k]) {
                let e = crate::text::end_of_digits(s, k);
                crate::text::lemma_end_of_digits(s, k);
                crate::text::lemma_end_of_digits(s, k + 1);
                assert(e == crate::text::end_of_digits(s, k + 1));
                let digits = s.subrange(k, e);
                assert(digits.len() > 0);
                assert forall|m: int| 0 <= m < digits.len() implies is_digit_char(digits[m]) by {
                    assert(digits[m] == s[k + m]);
                }
            }
        }
    }
}

/// Every `rm` act a timeline yields carries a non-empty digit run.
pub proof fn lemma_acts_wf(events: Seq<EventS>, bot: Seq<char>)
    ensures
        forall|k: int|
            0 <= k < acts_of(events, bot).len() ==> act_wf(#[trigger] acts_of(events, bot)[k]),
    decreases events.len(),
{
    if events.len() > 0 {
        lemma_acts_wf(events.drop_last(), bot);
        lemma_cmd_rm_digits_wf(body_of(events.last()));
        let pre = acts_of(events.drop_last(), bot);
        let tail = act_of_event(events.last(), bot);
        assert forall|k: int| 0 <= k < acts_of(events, bot).len() implies act_wf(
            acts_of(events, bot)[k],
        ) by {
            if k < pre.len() {
                assert(acts_of(events, bot)[k] == pre[k]);
            } else {
                assert(acts_of(events, bot)[k] == tail[k - pre.len()]);
            }
        }
    }
}

/// Executable resolved act.
#[derive(Debug, PartialEq, Eq)]
pub enum ResolvedAct {
    Add { sender: String, description: String, when: Option<i64> },
    Rm { sender: String, digits: String },
}

impl View for ResolvedAct {
    type V = RActS;

    open spec fn view(&self) -> RActS {
        match self {
            ResolvedAct::Add { sender, description, when } => RActS::Add {
                sender: sender@,
                description: description@,
                when: *when,
            },
            ResolvedAct::Rm { sender, digits } => RActS::Rm { sender: sender@, digits: digits@ },
        }
    }
}

pub open spec fn view_racts(s: Seq<ResolvedAct>) -> Seq<RActS> {
    s.map_values(|r: ResolvedAct| r@)
}

/// The character class of the datetime parser's trailing timezone token.
pub open spec fn is_tz_char(c: char) -> bool {
    ||| c == '+'
    ||| c == '-'
    ||| c == ':'
    ||| is_digit_char(c)
    ||| 97 <= c as u32 <= 122
    ||| 65 <= c as u32 <= 90
}

fn tz_char(c: char) -> (r: bool)
    ensures
        r == is_tz_char(c),
{
    c == '+' || c == '-' || c == ':' || (c >= '0' && c <= '9') || (c >= 'a' && c <= 'z') || (c
        >= 'A' && c <= 'Z')
}

/// Whether the last `j` characters of `s` read as a fixed-offset token
/// with an hour count of 24 or more: a sign, then two digits valued at
/// least 24, the whole tail drawn from the timezone character class.
pub open spec fn oversized_offset_tail_at(s: Seq<char>, j: int) -> bool {
    let i = s.len() - j;
    &&& 3 <= j <= s.len()
    &&& (s[i] == '+' || s[i] == '-')
    &&& is_digit_char(s[i + 1])
    &&& is_digit_char(s[i + 2])
    &&& 10 * digit_val(s[i + 1]) + digit_val(s[i + 2]) >= 24
    &&& forall|k: int| i <= k < s.len() ==> is_tz_char(#[trigger] s[k])
}

/// Whether a datetime expression ends in such a token, 5 or 6 characters
/// long — the only shapes the outside parser completes as a fixed offset.
pub open spec fn oversized_offset_tail(s: Seq<char>) -> bool {
    oversized_offset_tail_at(s, 5) || oversized_offset_tail_at(s, 6)
}

fn has_oversized_offset_tail_at(s: &str, j: usize) -> (r: bool)
    requires
        3 <= j,
    ensures
        r == oversized_offset_tail_at(s@, j as int),
{
    let n = s.unicode_len();
    if j > n {
        return false;
    }
    let i = n - j;
    let c0 = s.get_char(i);
    if !(c0 == '+' || c0 == '-') {
        return false;
    }
    let c1 = s.get_char(i + 1);
    let c2 = s.get_char(i + 2);
    if !(is_digit(c1) && is_digit(c2)) {
        return false;
    }
    let hours: u32 = (c1 as u32 - 48) * 10 + (c2 as u32 - 48);
    if hours < 24 {
        return false;
    }
    let mut k = i;
    while k < n
        invariant
            i <= k <= n,
            n == s@.len(),
            3 <= j <= n,
            i == n - j,
            forall|m: int| i <= m < k ==> is_tz_char(#[trigger] s@[m]),
        decreases n - k,
    {
        if !tz_char(s.get_char(k)) {
            return false;
        }
        k = k + 1;
    }
    true
}

/// Whether the expression may be handed to the outside datetime parser.
fn when_expr_is_safe(expr: &str) -> (r: bool)
    ensures
        r == !oversized_offset_tail(expr@),
{
    !(has_oversized_offset_tail_at(expr, 5) || has_oversized_offset_tail_at(expr, 6))
}

/// Relies on dateparser::parse_with_timezone with chrono's local
/// timezone: the outcome depends on the machine clock and timezone, so
/// nothing is promised of it. dateparser hands a trailing
/// `[+-:a-zA-Z0-9]{3,6}` token of the expression, trimmed, to its
/// fixed-offset parser (sign, hours 00–99, optional colons, minutes
/// 00–59), and an offset of 24 hours or more aborts in chrono's
/// `FixedOffset::east`; the precondition keeps every expression whose
/// tail could read that way out, so the call returns on all admitted
/// inputs — its remaining branches are bounds-checked or `Result`-based.
#[verifier::external_body]
fn resolve_when(expr: &str) -> (r: Option<i64>)
    requires
        !oversized_offset_tail(expr@),
{
    match dateparser::parse_with_timezone(expr, &chrono::offset::Local) {
        Ok(dt) => Some(dt.timestamp()),
        Err(_) => None,
    }
}

/// Resolves the datetime expression of every `add` act.
pub fn resolve_acts(acts: &Vec<Act>) -> (r: Vec<ResolvedAct>)
    ensures
        resolves(view_acts(acts@), view_racts(r@)),
        forall|k: int|
            0 <= k < acts@.len() && act_wf(view_acts(acts@)[k]) ==> ract_wf(
                #[trigger] view_racts(r@)[k],
            ),
{
    let n = acts.len();
    let mut out: Vec<ResolvedAct> = Vec::new();
    let mut i: usize = 0;
    while i < n
        invariant
            0 <= i <= n,
            n == acts@.len(),
            out@.len() == i,
            forall|k: int|
                0 <= k < i ==> resolves_one(view_acts(acts@)[k], #[trigger] view_racts(out@)[k]),
            forall|k: int|
                0 <= k < i && act_wf(view_acts(acts@)[k]) ==> ract_wf(
                    #[trigger] view_racts(out@)[k],
                ),
        decreases n - i,
    {
        let ra = match &acts[i] {
            Act::Add { sender, description, when_expr } => {
                // An expression with an out-of-range offset tail cannot
                // resolve; it reads as a failed resolution without being
                // handed to the outside parser.
                let when = if when_expr_is_safe(when_expr.as_str()) {
                    resolve_when(when_expr.as_str())
                } else {
                    None
                };
                ResolvedAct::Add {
                    sender: sender.clone(),
                    description: description.clone(),
                    when,
                }
            },
            Act::Rm { sender, digits } => ResolvedAct::Rm {
                sender: sender.clone(),
                digits: digits.clone(),
            },
        };
        let ghost prev = out@;
        let ghost rag = ra@;
        proof {
            assert(resolves_one(acts@[i as int]@, rag));
        }
        out.push(ra);
        proof {
            assert(out@[i as int]@ == rag);
            assert forall|k: int| 0 <= k < i + 1 implies resolves_one(
                view_acts(acts@)[k],
                #[trigger] view_racts(out@)[k],
            ) by {
                assert(view_racts(out@)[k] == out@[k]@);
                assert(view_acts(acts@)[k] == acts@[k]@);
                if k < i {
                    assert(out@[k] == prev[k]);
                    assert(view_racts(prev)[k] == prev[k]@);
                }
            }
            assert forall|k: int| 0 <= k < i + 1 && act_wf(view_acts(acts@)[k]) implies ract_wf(
                #[trigger] view_racts(out@)[k],
            ) by {
                assert(view_racts(out@)[k] == out@[k]@);
                assert(view_acts(acts@)[k] == acts@[k]@);
                if k < i {
                    assert(out@[k] == prev[k]);
                    assert(view_racts(prev)[k] == prev[k]@);
                }
            }
        }
        i = i + 1;
    }
    out
}

fn room_message(room: &str, message: String) -> (m: Message)
    ensures
        m@ == (MsgS { room: room@, message: message@ }),
{
    Message { room: String::from_str(room), message }
}

/// Applies one resolved act to the store and returns its reply.
fn apply_one(store: &mut EventStore, room: &str, a: &ResolvedAct) -> (m: Message)
    requires
        old(store).wf(),
        ract_wf(a@),
        old(store).next_id_view() < u64::MAX,
    ensures
        final(store).wf(),
        final(store).entries_view() == apply_act(
            old(store).entries_view(),
            old(store).next_id_view(),
            a@,
            room@,
        ).0,
        final(store).next_id_view() == apply_act(
            old(store).entries_view(),
            old(store).next_id_view(),
            a@,
            room@,
        ).1,
        seq![m@] =~= apply_act(
            old(store).entries_view(),
            old(store).next_id_view(),
            a@,
            room@,
        ).2,
        final(store).next_id_view() <= old(store).next_id_view() + 1,
{
    match a {
        ResolvedAct::Add { sender, description, when } => {
            if description.unicode_len() > 0 {
                if let Some(ts) = when {
                    let _id = store.insert(sender.clone(), description.clone(), *ts);
                    return room_message(room, crate::replies::added_reply(sender.as_str()));
                }
            }
            room_message(room, crate::replies::add_failed_reply(sender.as_str()))
        },
        ResolvedAct::Rm { sender, digits } => {
            match crate::text::parse_u64(digits.as_str()) {
                Some(v) => {
                    let deleted = store.delete(sender.as_str(), v);
                    if deleted {
                        room_message(
                            room,
                            crate::replies::rm_removed_reply(digits.as_str(), sender.as_str()),
                        )
                    } else {
                        room_message(
                            room,
                            crate::replies::rm_missing_reply(digits.as_str()),
                        )
                    }
                },
                None => {
                    // The requested identifier exceeds every stored one.
                    proof {
                        let entries = store.entries_view();
                        let idv = digits_value(digits@);
                        crate::store::lemma_find_match(entries, sender@, idv, 0);
                        if find_match(entries, sender@, idv, 0) < entries.len() {
                            assert(entries[find_match(entries, sender@, idv, 0)].id as nat
                                == idv);
                        }
                    }
                    room_message(room, crate::replies::rm_missing_reply(digits.as_str()))
                },
            }
        },
    }
}

/// Applies a batch of resolved acts, then the `list` and `help` replies.
pub fn apply(
    store: &mut EventStore,
    room: &str,
    racts: &Vec<ResolvedAct>,
    want_list: bool,
    want_help: bool,
) -> (msgs: Vec<Message>)
    requires
        old(store).wf(),
        old(store).next_id_view() + racts@.len() <= u64::MAX,
        forall|k: int| 0 <= k < racts@.len() ==> ract_wf(#[trigger] view_racts(racts@)[k]),
    ensures
        final(store).wf(),
        final(store).entries_view() == interp(
            old(store).entries_view(),
            old(store).next_id_view(),
            view_racts(racts@),
            want_list,
            want_help,
            room@,
        ).0,
        final(store).next_id_view() == interp(
            old(store).entries_view(),
            old(store).next_id_view(),
            view_racts(racts@),
            want_list,
            want_help,
            room@,
        ).1,
        msgs.deep_view() == interp(
            old(store).entries_view(),
            old(store).next_id_view(),
            view_racts(racts@),
            want_list,
            want_help,
            room@,
        ).2,
{
    let ghost e0 = old(store).entries_view();
    let ghost n0 = old(store).next_id_view();
    let ghost rv = view_racts(racts@);
    let mut msgs: Vec<Message> = Vec::new();
    let n = racts.len();
    proof {
        assert(rv.take(0) =~= Seq::<RActS>::empty());
        assert(msgs.deep_view() =~= Seq::<MsgS>::empty());
    }
    let mut i: usize = 0;
    while i < n
        invariant
            0 <= i <= n,
            n == rv.len(),
            rv == view_racts(racts@),
            forall|k: int| 0 <= k < rv.len() ==> ract_wf(#[trigger] rv[k]),
            store.wf(),
            store.entries_view() == apply_acts(e0, n0, rv.take(i as int), room@).0,
            store.next_id_view() == apply_acts(e0, n0, rv.take(i as int), room@).1,
            msgs.deep_view() == apply_acts(e0, n0, rv.take(i as int), room@).2,
            store.next_id_view() + (n - i) <= u64::MAX,
        decreases n - i,
    {
        let m = apply_one(store, room, &racts[i]);
        msgs.push(m);
        proof {
            lemma_apply_acts_snoc(e0, n0, rv.take(i as int), rv[i as int], room@);
            assert(rv.take(i as int + 1) =~= rv.take(i as int).push(rv[i as int]));
            assert(msgs.deep_view() =~= apply_acts(e0, n0, rv.take(i as int + 1), room@).2);
        }
        i = i + 1;
    }
    proof {
        assert(rv.take(n as int) =~= rv);
    }
    if want_list {
        let reply = crate::replies::list_reply(store);
        msgs.push(room_message(room, reply));
        proof {
            assert(msgs.deep_view() =~= apply_acts(e0, n0, rv, room@).2.push(
                MsgS {
                    room: room@,
                    message: crate::replies::list_reply_spec(apply_acts(e0, n0, rv, room@).0),
                },
            ));
        }
    }
    if want_help {
        msgs.push(room_message(room, crate::replies::help_reply()));
        proof {
            assert(msgs.deep_view() =~= interp(e0, n0, rv, want_list, want_help, room@).2);
        }
    }
    proof {
        assert(msgs.deep_view() =~= interp(e0, n0, rv, want_list, want_help, room@).2);
    }
    msgs
}

/// The interpreter: the bot identity it suppresses, and the store it owns.
pub struct Task {
    pub store: EventStore,
    pub sender: String,
}

impl Task {
    /// The bot's own identity, against which senders are compared.
    pub open spec fn sender_view(&self) -> Seq<char> {
        self.sender@
    }

    pub fn new(sender: String) -> (t: Task)
        ensures
            t.store.wf(),
            t.store.entries_view() =~= Seq::<EntryS>::empty(),
            t.store.next_id_view() == 1,
            t.sender_view() == sender@,
    {
        Task { store: EventStore::new(), sender }
    }

    pub fn with_store(store: EventStore, sender: String) -> (t: Task)
        ensures
            t.store == store,
            t.sender_view() == sender@,
    {
        Task { store, sender }
    }

    /// Interprets one room timeline: mutates the store and returns the
    /// replies for that room, in order. The outcome is the interpretation
    /// of the scanned acts under some resolution of their datetime
    /// expressions.
    pub fn parse(&mut self, room: &String, timeline: &MatrixTimeline) -> (msgs: Vec<Message>)
        requires
            old(self).store.wf(),
            old(self).store.next_id_view() + timeline@.len() <= u64::MAX,
        ensures
            final(self).store.wf(),
            final(self).sender_view() == old(self).sender_view(),
            final(self).store.next_id_view() <= old(self).store.next_id_view() + timeline@.len(),
            room_step(
                old(self).store.entries_view(),
                old(self).store.next_id_view(),
                old(self).sender_view(),
                room@,
                timeline@,
                final(self).store.entries_view(),
                final(self).store.next_id_view(),
                msgs.deep_view(),
            ),
    {
        proof {
            lemma_acts_len(timeline@, self.sender@);
            lemma_acts_wf(timeline@, self.sender@);
        }
        let (acts, want_list, want_help) = scan(timeline, self.sender.as_str());
        let resolved = resolve_acts(&acts);
        let msgs = apply(&mut self.store, room.as_str(), &resolved, want_list, want_help);
        proof {
            let racts = view_racts(resolved@);
            assert(resolves(acts_of(timeline@, old(self).sender_view()), racts));
            lemma_apply_acts_next_id(
                old(self).store.entries_view(),
                old(self).store.next_id_view(),
                racts,
                room@,
            );
        }
        msgs
    }
}

proof fn lemma_ineligible_ignored(events: Seq<EventS>, bot: Seq<char>)
    requires
        forall|i: int| 0 <= i < events.len() ==> !eligible(#[trigger] events[i], bot),
    ensures
        acts_of(events, bot) == Seq::<ActS>::empty(),
        !wants_list(events, bot),
        !wants_help(events, bot),
    decreases events.len(),
{
    if events.len() > 0 {
        assert forall|i: int| 0 <= i < events.drop_last().len() implies !eligible(
            #[trigger] events.drop_last()[i],
            bot,
        ) by {
            assert(events.drop_last()[i] == events[i]);
        }
        lemma_ineligible_ignored(events.drop_last(), bot);
        assert(acts_of(events, bot) =~= Seq::<ActS>::empty());
    }
}

/// One event that is not eligible — without content or body, with an
/// empty body, or sent by the bot itself — contributes nothing at all:
/// dropping it from the timeline changes neither the acts nor the
/// list/help flags, and therefore neither the store nor the replies of
/// any interpretation of the batch.
pub proof fn lemma_ineligible_event_dropped(events: Seq<EventS>, bot: Seq<char>, i: int)
    requires
        0 <= i < events.len(),
        !eligible(events[i], bot),
    ensures
        acts_of(events.remove(i), bot) == acts_of(events, bot),
        wants_list(events.remove(i), bot) == wants_list(events, bot),
        wants_help(events.remove(i), bot) == wants_help(events, bot),
    decreases events.len(),
{
    if i == events.len() - 1 {
        assert(events.remove(i) =~= events.drop_last());
        assert(act_of_event(events.last(), bot) =~= Seq::<ActS>::empty());
        assert(acts_of(events, bot) =~= acts_of(events.drop_last(), bot));
    } else {
        lemma_ineligible_event_dropped(events.drop_last(), bot, i);
        assert(events.remove(i).drop_last() =~= events.drop_last().remove(i));
        assert(events.remove(i).last() == events.last());
        assert(acts_of(events.remove(i), bot) =~= acts_of(events, bot));
    }
}

/// A batch of events that all lack content or body, or whose bodies are
/// empty, is ignored entirely: whatever the resolution, interpretation
/// leaves the store unchanged and produces no reply.
pub proof fn lemma_malformed_events_ignored(
    events: Seq<EventS>,
    bot: Seq<char>,
    entries: Seq<EntryS>,
    next_id: u64,
    room: Seq<char>,
    racts: Seq<RActS>,
)
    requires
        forall|i: int|
            0 <= i < events.len() ==> ((#[trigger] events[i]).content is None
                || events[i].content->0.body is None || body_of(events[i]).len() == 0),
        resolves(acts_of(events, bot), racts),
    ensures
        interp(entries, next_id, racts, wants_list(events, bot), wants_help(events, bot), room).0
            == entries,
        interp(entries, next_id, racts, wants_list(events, bot), wants_help(events, bot), room).1
            == next_id,
        interp(entries, next_id, racts, wants_list(events, bot), wants_help(events, bot), room).2
            == Seq::<MsgS>::empty(),
{
    assert forall|i: int| 0 <= i < events.len() implies !eligible(#[trigger] events[i], bot) by {}
    lemma_ineligible_ignored(events, bot);
    assert(racts =~= Seq::<RActS>::empty());
}

/// A batch of events all sent by the bot itself is ignored entirely,
/// whatever the messages say: interpretation leaves the store unchanged
/// and produces no reply.
pub proof fn lemma_own_messages_ignored(
    events: Seq<EventS>,
    bot: Seq<char>,
    entries: Seq<EntryS>,
    next_id: u64,
    room: Seq<char>,
    racts: Seq<RActS>,
)
    requires
        forall|i: int| 0 <= i < events.len() ==> sender_of(#[trigger] events[i]) == bot,
        resolves(acts_of(events, bot), racts),
    ensures
        interp(entries, next_id, racts, wants_list(events, bot), wants_help(events, bot), room).0
            == entries,
        interp(entries, next_id, racts, wants_list(events, bot), wants_help(events, bot), room).1
            == next_id,
        interp(entries, next_id, racts, wants_list(events, bot), wants_help(events, bot), room).2
            == Seq::<MsgS>::empty(),
{
    assert forall|i: int| 0 <= i < events.len() implies !eligible(#[trigger] events[i], bot) by {}
    lemma_ineligible_ignored(events, bot);
    assert(racts =~= Seq::<RActS>::empty());
}

/// An `add` whose description is non-empty and whose datetime resolved
/// appends exactly one entry, hosted by the sender, and produces exactly
/// one reply — whose text contains the word `added`.
pub proof fn lemma_add_resolved(
    entries: Seq<EntryS>,
    next_id: u64,
    sender: Seq<char>,
    description: Seq<char>,
    ts: i64,
    room: Seq<char>,
)
    requires
        description.len() > 0,
    ensures
        apply_act(
            entries,
            next_id,
            RActS::Add { sender, description, when: Some(ts) },
            room,
        ).0 == entries.push(EntryS { id: next_id, host: sender, description, timestamp: ts }),
        apply_act(
            entries,
            next_id,
            RActS::Add { sender, description, when: Some(ts) },
            room,
        ).1 == (next_id + 1) as u64,
        apply_act(entries, next_id, RActS::Add { sender, description, when: Some(ts) }, room).2
            =~= seq![
            MsgS { room, message: crate::replies::added_reply_spec(sender) },
        ],
        crate::replies::added_reply_spec(sender).subrange(
            sender.len() + 18 as int,
            sender.len() + 23 as int,
        ) =~= "added"@,
{
    reveal_strlit("Thank you ");
    reveal_strlit(". Event added to list.");
    reveal_strlit("added");
}

/// An `add` whose description is empty or whose datetime did not resolve
/// changes nothing and produces exactly one failure reply.
pub proof fn lemma_add_rejected(
    entries: Seq<EntryS>,
    next_id: u64,
    sender: Seq<char>,
    description: Seq<char>,
    when: Option<i64>,
    room: Seq<char>,
)
    requires
        description.len() == 0 || when is None,
    ensures
        apply_act(entries, next_id, RActS::Add { sender, description, when }, room).0 == entries,
        apply_act(entries, next_id, RActS::Add { sender, description, when }, room).1 == next_id,
        apply_act(entries, next_id, RActS::Add { sender, description, when }, room).2 =~= seq![
            MsgS { room, message: crate::replies::add_failed_reply_spec(sender) },
        ],
{
}

/// An `rm` naming an entry that the sender does not own — or no entry at
/// all — deletes nothing and produces exactly one "does not exist" reply.
pub proof fn lemma_rm_unmatched(
    entries: Seq<EntryS>,
    next_id: u64,
    sender: Seq<char>,
    digits: Seq<char>,
    room: Seq<char>,
)
    requires
        forall|k: int|
            0 <= k < entries.len() ==> !((#[trigger] entries[k]).host == sender
                && entries[k].id as nat == digits_value(digits)),
    ensures
        apply_act(entries, next_id, RActS::Rm { sender, digits }, room).0 == entries,
        apply_act(entries, next_id, RActS::Rm { sender, digits }, room).1 == next_id,
        apply_act(entries, next_id, RActS::Rm { sender, digits }, room).2 =~= seq![
            MsgS { room, message: crate::replies::rm_missing_reply_spec(digits) },
        ],
{
    crate::store::lemma_find_match(entries, sender, digits_value(digits), 0);
}

/// An `rm` naming an entry the sender owns deletes exactly that one row
/// and produces exactly one "removed by" reply.
pub proof fn lemma_rm_owned(
    entries: Seq<EntryS>,
    next_id: u64,
    sender: Seq<char>,
    digits: Seq<char>,
    room: Seq<char>,
    k: int,
)
    requires
        0 <= k < entries.len(),
        entries[k].host == sender,
        entries[k].id as nat == digits_value(digits),
        forall|j: int|
            0 <= j < k ==> !((#[trigger] entries[j]).host == sender && entries[j].id as nat
                == digits_value(digits)),
    ensures
        apply_act(entries, next_id, RActS::Rm { sender, digits }, room).0 == entries.remove(k),
        apply_act(entries, next_id, RActS::Rm { sender, digits }, room).1 == next_id,
        apply_act(entries, next_id, RActS::Rm { sender, digits }, room).2 =~= seq![
            MsgS { room, message: crate::replies::rm_removed_reply_spec(digits, sender) },
        ],
{
    let dv = digits_value(digits);
    crate::store::lemma_find_match(entries, sender, dv, 0);
    let f = find_match(entries, sender, dv, 0);
    if f < k {
        assert(entries[f].host == sender && entries[f].id as nat == dv);
    }
    if f > k {
        assert(!(entries[k].host == sender && entries[k].id as nat == dv));
    }
}

/// Replaying the same `rm` twice never deletes twice: whatever the first
/// application did, the second deletes nothing and reports that the entry
/// does not exist. Holds whenever identifiers are unique, as they are in
/// every well-formed store.
pub proof fn lemma_rm_twice(
    entries: Seq<EntryS>,
    next_id: u64,
    sender: Seq<char>,
    digits: Seq<char>,
    room: Seq<char>,
)
    requires
        forall|i: int, j: int|
            0 <= i < j < entries.len() ==> (#[trigger] entries[i]).id != (
            #[trigger] entries[j]).id,
    ensures
        ({
            let t1 = apply_act(entries, next_id, RActS::Rm { sender, digits }, room);
            let t2 = apply_act(t1.0, t1.1, RActS::Rm { sender, digits }, room);
            &&& t2.0 == t1.0
            &&& t2.1 == t1.1
            &&& t2.2 =~= seq![
                MsgS { room, message: crate::replies::rm_missing_reply_spec(digits) },
            ]
        }),
{
    let dv = digits_value(digits);
    crate::store::lemma_find_match(entries, sender, dv, 0);
    let f = find_match(entries, sender, dv, 0);
    if f < entries.len() {
        let e1 = entries.remove(f);
        assert forall|k: int| 0 <= k < e1.len() implies !((#[trigger] e1[k]).host == sender
            && e1[k].id as nat == dv) by {
            let i0 = if k < f {
                k
            } else {
                k + 1
            };
            assert(e1[k] == entries[i0]);
            if e1[k].host == sender && e1[k].id as nat == dv {
                assert(entries[i0].id == entries[f].id);
            }
        }
        crate::store::lemma_find_match(e1, sender, dv, 0);
    }
}

/// Replaying the same resolved `add` twice inserts two entries — the
/// store does not deduplicate. They share host, description and
/// timestamp and differ only in their identifiers.
pub proof fn lemma_add_twice(
    entries: Seq<EntryS>,
    next_id: u64,
    sender: Seq<char>,
    description: Seq<char>,
    ts: i64,
    room: Seq<char>,
)
    requires
        description.len() > 0,
        next_id < u64::MAX,
    ensures
        ({
            let a = RActS::Add { sender, description, when: Some(ts) };
            let t1 = apply_act(entries, next_id, a, room);
            let t2 = apply_act(t1.0, t1.1, a, room);
            &&& t2.0 == entries.push(
                EntryS { id: next_id, host: sender, description, timestamp: ts },
            ).push(
                EntryS { id: (next_id + 1) as u64, host: sender, description, timestamp: ts },
            )
            &&& t2.0.len() == entries.len() + 2
            &&& t2.0[entries.len() as int].id != t2.0[entries.len() + 1 as int].id
        }),
{
}

/// A batch that only asks for the list changes nothing and produces
/// exactly one reply: the fixed notice when the store is empty, else the
/// header and one table row per entry, in store order.
pub proof fn lemma_list_reply(entries: Seq<EntryS>, next_id: u64, room: Seq<char>)
    ensures
        interp(entries, next_id, Seq::<RActS>::empty(), true, false, room).0 == entries,
        interp(entries, next_id, Seq::<RActS>::empty(), true, false, room).1 == next_id,
        interp(entries, next_id, Seq::<RActS>::empty(), true, false, room).2 =~= seq![
            MsgS { room, message: crate::replies::list_reply_spec(entries) },
        ],
        entries.len() == 0 ==> crate::replies::list_reply_spec(entries)
            == crate::replies::no_events_reply_spec(),
        entries.len() > 0 ==> crate::replies::list_reply_spec(entries)
            == crate::replies::list_header_spec() + crate::replies::list_rows_spec(entries),
        entries.len() > 0 ==> crate::replies::list_rows_spec(entries)
            == crate::replies::list_rows_spec(entries.drop_last())
            + crate::replies::list_row_spec(entries.last()),
{
}

/// One room's interpretation: some resolution of the scanned acts relates
/// the store before the batch to the store after it and to the replies.
pub open spec fn room_step(
    entries: Seq<EntryS>,
    next_id: u64,
    bot: Seq<char>,
    room: Seq<char>,
    events: Seq<EventS>,
    entries2: Seq<EntryS>,
    next_id2: u64,
    msgs: Seq<MsgS>,
) -> bool {
    exists|racts: Seq<RActS>|
        {
            let t = interp(
                entries,
                next_id,
                racts,
                wants_list(events, bot),
                wants_help(events, bot),
                room,
            );
            &&& #[trigger] resolves(acts_of(events, bot), racts)
            &&& entries2 == t.0
            &&& next_id2 == t.1
            &&& msgs == t.2
        }
}

} // verus!
