//! The `!cal` command grammar.
//!
//! A message triggers at most one command. The prefix is optional blanks,
//! `!`, then `cal` in any letter case, then at least one blank. After the
//! prefix the keyword decides the command:
//! - `list` and `help` need nothing more (trailing text is ignored);
//! - `add` needs one blank, then a description up to the first `|`, then
//!   the datetime expression (leading blanks dropped); the description is
//!   kept trimmed and may come out empty, which the interpreter rejects;
//! - `rm` needs one blank, then blanks, then at least one decimal digit;
//!   the digit run is the entry identifier.
//! Anything else is silently ignored.

use vstd::prelude::*;

use crate::text::{
    end_of_digits, find_char, first_non_space, is_digit_char, is_space_char, scan_digits,
    scan_for_char, skip_spaces, starts_with_at, trim, trim_spec, has_prefix_at, is_digit,
    is_space,
};

verus! {

/// Specification-level command.
pub ghost enum CmdS {
    List,
    Help,
    Add { description: Seq<char>, when_expr: Seq<char> },
    Rm { digits: Seq<char> },
}

/// Executable command, as handed to the interpreter.
#[derive(Debug, PartialEq, Eq)]
pub enum Command {
    List,
    Help,
    Add { description: String, when_expr: String },
    Rm { digits: String },
}

impl View for Command {
    type V = CmdS;

    open spec fn view(&self) -> CmdS {
        match self {
            Command::List => CmdS::List,
            Command::Help => CmdS::Help,
            Command::Add { description, when_expr } => CmdS::Add {
                description: description@,
                when_expr: when_expr@,
            },
            Command::Rm { digits } => CmdS::Rm { digits: digits@ },
        }
    }
}

/// Whether the letters `cal` stand at `i`, in any case.
pub open spec fn cal_word_at(s: Seq<char>, i: int) -> bool {
    &&& i + 3 <= s.len()
    &&& (s[i] == 'c' || s[i] == 'C')
    &&& (s[i + 1] == 'a' || s[i + 1] == 'A')
    &&& (s[i + 2] == 'l' || s[i + 2] == 'L')
}

/// The `add` arguments, scanned from `p` (just after `add` and one blank).
pub open spec fn add_cmd(s: Seq<char>, p: int) -> Option<CmdS>
    recommends
        0 <= p <= s.len(),
{
    let q = find_char(s, '|', p);
    if q == s.len() {
        None
    } else {
        Some(CmdS::Add {
            description: trim_spec(s.subrange(p, q)),
            when_expr: s.subrange(first_non_space(s, q + 1), s.len() as int),
        })
    }
}

/// The `rm` argument, scanned from `p` (just after `rm`).
pub open spec fn rm_cmd(s: Seq<char>, p: int) -> Option<CmdS>
    recommends
        0 <= p <= s.len(),
{
    let k = first_non_space(s, p);
    if k < s.len() && is_digit_char(s[k]) {
        Some(CmdS::Rm { digits: s.subrange(k, end_of_digits(s, k)) })
    } else {
        None
    }
}

/// The command carried by a message body, if any.
pub open spec fn cmd_of(s: Seq<char>) -> Option<CmdS> {
    let i = first_non_space(s, 0);
    if !(i + 4 <= s.len() && s[i] == '!' && cal_word_at(s, i + 1)) {
        None
    } else {
        let j = first_non_space(s, i + 4);
        if j == i + 4 {
            None
        } else if starts_with_at(s, "list"@, j) {
            Some(CmdS::List)
        } else if starts_with_at(s, "help"@, j) {
            Some(CmdS::Help)
        } else if starts_with_at(s, "add"@, j) && j + 3 < s.len() && is_space_char(s[j + 3]) {
            add_cmd(s, j + 4)
        } else if starts_with_at(s, "rm"@, j) && j + 2 < s.len() && is_space_char(s[j + 2]) {
            rm_cmd(s, j + 2)
        } else {
            None
        }
    }
}

/// Scans a message body for a command.
pub fn parse_command(s: &str) -> (r: Option<Command>)
    ensures
        match r {
            Some(c) => cmd_of(s@) == Some(c@),
            None => cmd_of(s@) is None,
        },
{
    let n = s.unicode_len();
    let i = skip_spaces(s, 0);
    if n < 4 || i > n - 4 || s.get_char(i) != '!' {
        return None;
    }
    let c1 = s.get_char(i + 1);
    let c2 = s.get_char(i + 2);
    let c3 = s.get_char(i + 3);
    if !((c1 == 'c' || c1 == 'C') && (c2 == 'a' || c2 == 'A') && (c3 == 'l' || c3 == 'L')) {
        return None;
    }
    let j = skip_spaces(s, i + 4);
    if j == i + 4 {
        return None;
    }
    if has_prefix_at(s, j, "list") {
        return Some(Command::List);
    }
    if has_prefix_at(s, j, "help") {
        return Some(Command::Help);
    }
    if has_prefix_at(s, j, "add") && n - j > 3 && is_space(s.get_char(j + 3)) {
        let p = j + 4;
        let q = scan_for_char(s, '|', p);
        if q == n {
            return None;
        }
        let description = trim(s.substring_char(p, q));
        let w = skip_spaces(s, q + 1);
        let when_expr = String::from_str(s.substring_char(w, n));
        return Some(Command::Add { description, when_expr });
    }
    if has_prefix_at(s, j, "rm") && n - j > 2 && is_space(s.get_char(j + 2)) {
        let k = skip_spaces(s, j + 2);
        if k < n && is_digit(s.get_char(k)) {
            let e = scan_digits(s, k);
            let digits = String::from_str(s.substring_char(k, e));
            return Some(Command::Rm { digits });
        }
        return None;
    }
    None
}

} // verus!
