use erised::grammar::{parse_command, Command};
use erised::text::{parse_u64, trim, u64_to_string};

#[test]
fn list_is_recognized() {
    assert_eq!(parse_command("!cal list"), Some(Command::List));
    assert_eq!(parse_command("   !cal list"), Some(Command::List));
    assert_eq!(parse_command("!cal   list"), Some(Command::List));
}

#[test]
fn prefix_is_case_insensitive() {
    assert_eq!(parse_command("!CAL list"), Some(Command::List));
    assert_eq!(parse_command("!Cal help"), Some(Command::Help));
    assert_eq!(parse_command("!cAl list"), Some(Command::List));
}

#[test]
fn keywords_are_case_sensitive() {
    assert_eq!(parse_command("!cal LIST"), None);
    assert_eq!(parse_command("!cal Help"), None);
}

#[test]
fn trailing_text_after_list_and_help_is_ignored() {
    assert_eq!(parse_command("!cal listing"), Some(Command::List));
    assert_eq!(parse_command("!cal helpme please"), Some(Command::Help));
}

#[test]
fn add_splits_description_and_datetime() {
    assert_eq!(
        parse_command("!cal add free lunch | tomorrow 5pm"),
        Some(Command::Add {
            description: "free lunch".to_string(),
            when_expr: "tomorrow 5pm".to_string(),
        })
    );
    assert_eq!(
        parse_command("!cal add x|y"),
        Some(Command::Add { description: "x".to_string(), when_expr: "y".to_string() })
    );
}

#[test]
fn add_description_is_trimmed_and_may_be_empty() {
    assert_eq!(
        parse_command("!cal add   padded out   | later"),
        Some(Command::Add {
            description: "padded out".to_string(),
            when_expr: "later".to_string(),
        })
    );
    assert_eq!(
        parse_command("!cal add  | tomorrow 5pm"),
        Some(Command::Add {
            description: "".to_string(),
            when_expr: "tomorrow 5pm".to_string(),
        })
    );
}

#[test]
fn add_without_pipe_is_ignored() {
    assert_eq!(parse_command("!cal add free lunch"), None);
}

#[test]
fn add_needs_a_blank_after_the_keyword() {
    assert_eq!(parse_command("!cal addx | y"), None);
}

#[test]
fn rm_takes_the_leading_digit_run() {
    assert_eq!(parse_command("!cal rm 7"), Some(Command::Rm { digits: "7".to_string() }));
    assert_eq!(parse_command("!cal rm   42"), Some(Command::Rm { digits: "42".to_string() }));
    assert_eq!(parse_command("!cal rm 007x"), Some(Command::Rm { digits: "007".to_string() }));
}

#[test]
fn rm_without_digits_is_ignored() {
    assert_eq!(parse_command("!cal rm"), None);
    assert_eq!(parse_command("!cal rm x"), None);
}

#[test]
fn unrelated_text_is_ignored() {
    assert_eq!(parse_command("hello there"), None);
    assert_eq!(parse_command("cal list"), None);
    assert_eq!(parse_command("!calrm 7"), None);
    assert_eq!(parse_command("!cal"), None);
    assert_eq!(parse_command(""), None);
}

#[test]
fn trim_strips_both_ends() {
    assert_eq!(trim("  a b  "), "a b".to_string());
    assert_eq!(trim("\t\n"), "".to_string());
    assert_eq!(trim("x"), "x".to_string());
}

#[test]
fn decimal_rendering() {
    assert_eq!(u64_to_string(0), "0".to_string());
    assert_eq!(u64_to_string(907), "907".to_string());
    assert_eq!(u64_to_string(u64::MAX), "18446744073709551615".to_string());
}

#[test]
fn digit_parsing_and_overflow() {
    assert_eq!(parse_u64("0"), Some(0));
    assert_eq!(parse_u64("007"), Some(7));
    assert_eq!(parse_u64("18446744073709551615"), Some(u64::MAX));
    assert_eq!(parse_u64("18446744073709551616"), None);
}
