use gx::color::{c, Color};
use gx::spinner::{clear_line, frame, next_frame, spinner_line};
use gx::text::{join_strings, pad_right_string, parse_usize_chars, to_chars, usize_to_string};

#[test]
fn color_codes() {
    assert_eq!(Color::Red.code(), "\x1b[31m");
    assert_eq!(Color::Green.code(), "\x1b[32m");
    assert_eq!(Color::Yellow.code(), "\x1b[33m");
    assert_eq!(Color::Cyan.code(), "\x1b[36m");
    assert_eq!(Color::Gray.code(), "\x1b[90m");
    assert_eq!(Color::BrightRed.code(), "\x1b[91m");
    assert_eq!(Color::BrightGreen.code(), "\x1b[92m");
    assert_eq!(Color::BrightYellow.code(), "\x1b[93m");
    assert_eq!(Color::Bold.code(), "\x1b[1m");
    assert_eq!(Color::reset(), "\x1b[0m");
}

#[test]
fn colored_text_is_wrapped() {
    assert_eq!(c(Color::Cyan, "main"), "\x1b[36mmain\x1b[0m");
    assert_eq!(c(Color::Bold, ""), "\x1b[1m\x1b[0m");
}

#[test]
fn spinner_frames_cycle() {
    assert_eq!(frame(0), '\u{280b}');
    assert_eq!(frame(9), '\u{280f}');
    assert_eq!(next_frame(3), 4);
    assert_eq!(next_frame(9), 0);
    assert_eq!(spinner_line(1, "Fetching"), "\r  \u{2819} Fetching");
    assert_eq!(clear_line(), "\r\x1b[K\r");
}

#[test]
fn decimal_text_round_trips() {
    assert_eq!(usize_to_string(0), "0");
    assert_eq!(usize_to_string(1234567), "1234567");
    assert_eq!(parse_usize_chars(&to_chars("1234567")), Some(1234567));
    assert_eq!(parse_usize_chars(&to_chars(&usize_to_string(usize::MAX))), Some(usize::MAX));
    assert_eq!(parse_usize_chars(&to_chars("+5")), Some(5));
    assert_eq!(parse_usize_chars(&to_chars("")), None);
    assert_eq!(parse_usize_chars(&to_chars("-1")), None);
    assert_eq!(parse_usize_chars(&to_chars("18446744073709551616")), None);
}

#[test]
fn joining_and_padding() {
    let parts = vec!["a".to_string(), "bc".to_string(), String::new()];
    assert_eq!(join_strings(&parts, " "), "a bc ");
    assert_eq!(join_strings(&[], ","), "");
    assert_eq!(pad_right_string("ab", 4), "ab  ");
    assert_eq!(pad_right_string("abcdef", 4), "abcdef");
    assert_eq!(pad_right_string("\u{e9}", 2), "\u{e9} ");
}
