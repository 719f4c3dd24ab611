use windmill_worker::logbuf::{
    apply_append, drain_round, drain_rounds, max_log_chars, overflow_sentinel, LineEvent,
};
use windmill_worker::MAX_RESULT_SIZE;

fn line(s: &str) -> LineEvent {
    LineEvent::Line(String::from(s))
}

#[test]
fn sentinel_names_the_limit() {
    let s = overflow_sentinel();
    assert_eq!(
        s,
        "Job logs or result reached character limit of 2097152; killing job."
    );
}

#[test]
fn budget_selection_follows_cloud_flag() {
    assert_eq!(max_log_chars(true), MAX_RESULT_SIZE);
    assert_eq!(max_log_chars(false), usize::MAX);
}

#[test]
fn exact_budget_no_sentinel() {
    // The newline costs 1, so a 9-char line exactly consumes a budget of 10.
    let items = vec![line("123456789")];
    let mut limit: usize = 10;
    let r = drain_round(&items, &mut limit);
    assert_eq!(r.joined, "\n123456789");
    assert_eq!(limit, 0);
    assert!(!r.overflow);
    assert!(r.io_error.is_none());
}

#[test]
fn one_char_over_budget_appends_sentinel() {
    let items = vec![line("1234567890")];
    let mut limit: usize = 10;
    let r = drain_round(&items, &mut limit);
    let expected = format!("\n123456789{}", overflow_sentinel());
    assert_eq!(r.joined, expected);
    assert_eq!(limit, 0);
    assert!(r.overflow);
}

#[test]
fn empty_lines_are_dropped() {
    let items = vec![line(""), line("a"), line("")];
    let mut limit: usize = 100;
    let r = drain_round(&items, &mut limit);
    assert_eq!(r.joined, "\na");
    assert_eq!(limit, 98);
    assert!(!r.overflow);
}

#[test]
fn truncation_at_scalar_boundary() {
    // Budget 4: newline + 3 scalar values of the line fit.
    let items = vec![line("héllo")];
    let mut limit: usize = 4;
    let r = drain_round(&items, &mut limit);
    let expected = format!("\nhél{}", overflow_sentinel());
    assert_eq!(r.joined, expected);
    assert!(r.overflow);
}

#[test]
fn io_error_ends_round_after_text() {
    let items = vec![line("x"), LineEvent::IoError(String::from("broken pipe"))];
    let mut limit: usize = 100;
    let r = drain_round(&items, &mut limit);
    assert_eq!(r.joined, "\nx");
    assert_eq!(r.io_error.as_deref(), Some("broken pipe"));
    assert!(!r.overflow);
}

#[test]
fn zero_budget_line_triggers_sentinel() {
    // With no budget left, a nonempty line would exceed it by its newline
    // alone: none of its content enters, and the overflow fires.
    let items = vec![line("something"), line("never-read")];
    let mut limit: usize = 0;
    let r = drain_round(&items, &mut limit);
    assert_eq!(r.joined, overflow_sentinel());
    assert_eq!(limit, 0);
    assert!(r.overflow);
    assert!(!r.joined.contains("something"));
}

#[test]
fn zero_budget_empty_lines_stay_silent() {
    let items = vec![line(""), line("")];
    let mut limit: usize = 0;
    let r = drain_round(&items, &mut limit);
    assert_eq!(r.joined, "");
    assert_eq!(limit, 0);
    assert!(!r.overflow);
}

#[test]
fn exact_fill_then_next_line_overflows() {
    // A line that exactly exhausts the budget is kept whole with no
    // sentinel; the next nonempty line then trips the overflow.
    let items = vec![line("123456789"), line("x")];
    let mut limit: usize = 10;
    let r = drain_round(&items, &mut limit);
    let expected = format!("\n123456789{}", overflow_sentinel());
    assert_eq!(r.joined, expected);
    assert_eq!(limit, 0);
    assert!(r.overflow);
}

#[test]
fn hello_run_ends_with_newline_hello() {
    let rounds = vec![vec![line("hello")]];
    let mut limit = max_log_chars(false);
    let mut logs = String::new();
    let r = drain_rounds(&rounds, &mut limit, &mut logs);
    assert!(logs.ends_with("\nhello"));
    assert!(!r.overflow);
    assert!(r.io_error.is_none());
}

#[test]
fn db_logs_are_concatenation_of_segments() {
    let rounds = vec![
        vec![line("one"), line("two")],
        vec![line("three")],
        vec![line("four")],
    ];
    let mut limit: usize = 1000;
    let mut logs = String::from("start");
    let r = drain_rounds(&rounds, &mut limit, &mut logs);
    assert_eq!(r.segments, vec!["\none\ntwo", "\nthree", "\nfour"]);
    assert_eq!(logs, "start\none\ntwo\nthree\nfour");
    // Shipping each segment once, in order, rebuilds the local logs.
    let mut db = String::from("start");
    for seg in &r.segments {
        apply_append(&mut db, seg);
    }
    assert_eq!(db, logs);
}

#[test]
fn drain_stops_at_overflow_round() {
    let rounds = vec![
        vec![line("abcde")],
        vec![line("never-seen")],
    ];
    let mut limit: usize = 3;
    let mut logs = String::new();
    let r = drain_rounds(&rounds, &mut limit, &mut logs);
    assert!(r.overflow);
    assert_eq!(r.segments.len(), 1);
    assert!(r.segments[0].ends_with(&overflow_sentinel()));
    assert!(!logs.contains("never-seen"));
}

#[test]
fn cloud_budget_three_megabytes_overflows() {
    let big = "x".repeat(3 * 1024 * 1024);
    let rounds = vec![vec![LineEvent::Line(big)]];
    let mut limit = max_log_chars(true);
    let mut logs = String::new();
    let r = drain_rounds(&rounds, &mut limit, &mut logs);
    assert!(r.overflow);
    assert_eq!(limit, 0);
    let sentinel = overflow_sentinel();
    assert!(logs.ends_with(&sentinel));
    // Line content is truncated to the budget; only the sentinel follows it.
    assert_eq!(logs.chars().count(), MAX_RESULT_SIZE + sentinel.chars().count());
}

#[test]
fn exact_fill_across_rounds_then_overflow() {
    // The budget runs out exactly at a round boundary; the next round's
    // first nonempty line trips the sentinel, shipped as its own segment.
    let rounds = vec![vec![line("123456789")], vec![line("late")]];
    let mut limit: usize = 10;
    let mut logs = String::new();
    let r = drain_rounds(&rounds, &mut limit, &mut logs);
    assert!(r.overflow);
    assert_eq!(r.segments.len(), 2);
    assert_eq!(r.segments[0], "\n123456789");
    assert_eq!(r.segments[1], overflow_sentinel());
    assert!(!logs.contains("late"));
}
