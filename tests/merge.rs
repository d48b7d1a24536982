use logtail::logline::create_logline;
use logtail::logset::{extract_loglines, find_bad_line, merge_logs, BadLine, LogSet};
use logtail::stamp::Stamp;

fn texts(lines: &[&str]) -> Vec<String> {
    lines.iter().map(|s| s.to_string()).collect()
}

const A: &str = "2021-03-04T12:00:00.00001 a: first";
const B: &str = "2021-03-04T12:00:01.00000 b: second";
const C: &str = "2021-03-04T12:00:02.50000 a: third";

#[test]
fn insert_keeps_order_and_drops_duplicates() {
    let mut set = LogSet::new();
    assert_eq!(set.len(), 0);
    assert!(set.insert(create_logline(C)));
    assert!(set.insert(create_logline(A)));
    assert!(!set.insert(create_logline(C)));
    assert!(set.insert(create_logline(B)));
    assert_eq!(set.len(), 3);
    assert_eq!(set.render(), texts(&[A, B, C]));
}

#[test]
fn equal_stamps_are_ordered_by_content() {
    let mut set = LogSet::new();
    set.insert(create_logline("2021-03-04T12:00:00.00001 zeta"));
    set.insert(create_logline("2021-03-04T12:00:00.00001 alpha"));
    assert_eq!(
        set.render(),
        texts(&["2021-03-04T12:00:00.00001 alpha", "2021-03-04T12:00:00.00001 zeta"])
    );
    assert_eq!(set.lines()[0].content, "alpha");
}

#[test]
fn extract_loglines_reads_every_line() {
    let mut set = LogSet::new();
    extract_loglines(&texts(&[C, A]), &mut set, None);
    assert_eq!(set.render(), texts(&[A, C]));
}

#[test]
fn extract_loglines_filters_by_boot_time() {
    let mut set = LogSet::new();
    let boot = create_logline(B).date;
    extract_loglines(&texts(&[A, B, C]), &mut set, Some(boot));
    assert_eq!(set.render(), texts(&[B, C]));
}

#[test]
fn find_bad_line_gives_the_first() {
    assert_eq!(find_bad_line(&texts(&[A, "garbage", C, "more"])), Some(1));
    assert_eq!(find_bad_line(&texts(&[A, B, C])), None);
    assert_eq!(find_bad_line(&Vec::new()), None);
}

#[test]
fn extract_loglines_of_no_lines_changes_nothing() {
    let mut set = LogSet::new();
    set.insert(create_logline(B));
    extract_loglines(&Vec::new(), &mut set, None);
    assert_eq!(set.render(), texts(&[B]));
}

#[test]
fn merge_logs_interleaves_files() {
    let files = vec![texts(&[A, C]), texts(&[B]), texts(&[])];
    let set = merge_logs(&files, None).unwrap();
    assert_eq!(set.render(), texts(&[A, B, C]));
}

#[test]
fn merge_logs_drops_lines_repeated_across_files() {
    let files = vec![texts(&[A, B]), texts(&[B, C]), texts(&[A])];
    let set = merge_logs(&files, None).unwrap();
    assert_eq!(set.render(), texts(&[A, B, C]));
}

#[test]
fn merge_logs_since_boot() {
    let files = vec![texts(&[A, C]), texts(&[B])];
    let boot = Stamp { secs: 1_614_859_201, nanos: 0 };
    let set = merge_logs(&files, Some(boot)).unwrap();
    assert_eq!(set.render(), texts(&[B, C]));
}

#[test]
fn merge_logs_reports_the_first_bad_line() {
    let files = vec![texts(&[A]), texts(&[B, "short", "also bad"]), texts(&["bad"])];
    assert_eq!(merge_logs(&files, None).err(), Some(BadLine { file: 1, line: 1 }));
}

#[test]
fn merge_logs_of_nothing_is_empty() {
    let set = merge_logs(&Vec::new(), None).unwrap();
    assert_eq!(set.len(), 0);
    assert!(set.render().is_empty());
}
