use logtail::logline::{
    compare_lines, compare_text, create_logline, logline_with_date, read_logline, LogLine,
};
use logtail::stamp::{boot_stamp, parse_stamp, stamp_less, Stamp};

fn line(date: &str, content: &str) -> String {
    format!("{} {}", date, content)
}

#[test]
fn parses_a_socklog_line() {
    let l = create_logline("2021-03-04T12:34:56.12345 daemon.info: sshd started");
    assert_eq!(l.date_str, "2021-03-04T12:34:56.12345");
    assert_eq!(l.content, "daemon.info: sshd started");
    assert_eq!(l.date, Stamp { secs: 1_614_861_296, nanos: 123_450_000 });
}

#[test]
fn parses_five_and_six_fraction_digits() {
    let s = parse_stamp("1970-01-01T00:00:01.500000");
    assert_eq!(s, Some(Stamp { secs: 1, nanos: 500_000_000 }));
    let l = create_logline("1970-01-01T00:00:01.50000 x");
    assert_eq!(l.date, Stamp { secs: 1, nanos: 500_000_000 });
}

#[test]
fn parse_stamp_reads_the_date() {
    assert_eq!(
        parse_stamp("1970-01-02T00:00:00.00001"),
        Some(Stamp { secs: 86_400, nanos: 10_000 })
    );
    assert_eq!(parse_stamp("yesterday at noon"), None);
    assert_eq!(parse_stamp("2021-13-04T12:34:56.12345"), None);
}

#[test]
fn line_of_exactly_date_and_separator_has_empty_content() {
    let l = create_logline("2021-03-04T12:34:56.12345 ");
    assert_eq!(l.content, "");
}

#[test]
fn short_line_is_refused() {
    assert!(read_logline("").is_none());
    assert!(read_logline("2021-03-04T12:34:56.12345").is_none());
}

#[test]
fn bad_date_is_refused() {
    assert!(read_logline("not a date, just some text here").is_none());
}

#[test]
fn multibyte_separator_is_refused() {
    assert!(read_logline("2021-03-04T12:34:56.12345\u{e9}content").is_none());
}

#[test]
fn separator_need_not_be_a_space() {
    let l = create_logline("2021-03-04T12:34:56.12345|rest");
    assert_eq!(l.content, "rest");
}

#[test]
fn content_keeps_multibyte_text() {
    let l = create_logline(&line("2021-03-04T12:34:56.12345", "caf\u{e9} \u{2603}"));
    assert_eq!(l.content, "caf\u{e9} \u{2603}");
}

#[test]
fn logline_with_date_splits_the_text() {
    let stamp = Stamp { secs: 7, nanos: 8 };
    let l = logline_with_date("0123456789012345678901234_tail", stamp);
    assert_eq!(l.date, stamp);
    assert_eq!(l.date_str, "0123456789012345678901234");
    assert_eq!(l.content, "tail");
}

#[test]
fn compare_text_is_lexicographic_by_code_point() {
    assert_eq!(compare_text("abc", "abd"), -1);
    assert_eq!(compare_text("abd", "abc"), 1);
    assert_eq!(compare_text("ab", "abc"), -1);
    assert_eq!(compare_text("abc", "ab"), 1);
    assert_eq!(compare_text("abc", "abc"), 0);
    assert_eq!(compare_text("", ""), 0);
    assert_eq!(compare_text("\u{e9}", "z"), 1);
    assert_eq!(compare_text("Z", "a"), -1);
}

fn mk(secs: i64, nanos: u32, date: &str, content: &str) -> LogLine {
    LogLine {
        date: Stamp { secs, nanos },
        date_str: date.to_string(),
        content: content.to_string(),
    }
}

#[test]
fn compare_lines_orders_by_stamp_then_texts() {
    assert!(compare_lines(&mk(1, 0, "b", "b"), &mk(2, 0, "a", "a")) < 0);
    assert!(compare_lines(&mk(1, 5, "a", "a"), &mk(1, 4, "b", "b")) > 0);
    assert!(compare_lines(&mk(1, 0, "a", "z"), &mk(1, 0, "b", "a")) < 0);
    assert!(compare_lines(&mk(1, 0, "a", "b"), &mk(1, 0, "a", "a")) > 0);
    assert_eq!(compare_lines(&mk(1, 0, "a", "b"), &mk(1, 0, "a", "b")), 0);
}

#[test]
fn stamp_less_is_chronological() {
    assert!(stamp_less(Stamp { secs: 1, nanos: 9 }, Stamp { secs: 2, nanos: 0 }));
    assert!(stamp_less(Stamp { secs: 1, nanos: 1 }, Stamp { secs: 1, nanos: 2 }));
    assert!(!stamp_less(Stamp { secs: 1, nanos: 2 }, Stamp { secs: 1, nanos: 2 }));
    assert!(!stamp_less(Stamp { secs: -1, nanos: 0 }, Stamp { secs: -2, nanos: 5 }));
}

#[test]
fn boot_stamp_subtracts_the_uptime() {
    assert_eq!(boot_stamp(1_000, 100), Stamp { secs: 900, nanos: 0 });
    assert_eq!(boot_stamp(1_000, 1_000), Stamp { secs: 0, nanos: 0 });
    assert_eq!(boot_stamp(1_000, 0), Stamp { secs: 1_000, nanos: 0 });
    assert_eq!(
        boot_stamp(8_210_298_412_799, 0),
        Stamp { secs: 8_210_298_412_799, nanos: 0 }
    );
}

#[test]
fn date_is_the_first_bytes_of_the_line() {
    let text = "2021-03-04T05:06:\u{2003}7.123 hello";
    let l = read_logline(text).unwrap();
    assert_eq!(l.date_str, "2021-03-04T05:06:\u{2003}7.123");
    assert_eq!(l.content, "hello");
    assert_eq!(l.date, Stamp { secs: 1_614_834_367, nanos: 123_000_000 });
    assert_eq!(format!("{} {}", l.date_str, l.content), text);
}

#[test]
fn read_logline_agrees_with_create_logline() {
    let text = "2021-03-04T12:34:56.12345 kern.warn: disk";
    let a = read_logline(text).unwrap();
    let b = create_logline(text);
    assert_eq!(compare_lines(&a, &b), 0);
}

#[test]
fn cut_inside_a_character_is_refused() {
    assert!(read_logline("2021-03-04T12:34:56.1234\u{e9} x").is_none());
}
