use windmill_worker::mem::{get_mem_peak, parse_i32, probe_target_pid, second_token, MemProbe};

#[test]
fn parse_plain_number() {
    assert_eq!(parse_i32("12345"), Some(12345));
}

#[test]
fn parse_signs_and_rejects() {
    assert_eq!(parse_i32("-42"), Some(-42));
    assert_eq!(parse_i32("+7"), Some(7));
    assert_eq!(parse_i32(""), None);
    assert_eq!(parse_i32("-"), None);
    assert_eq!(parse_i32("12a"), None);
    assert_eq!(parse_i32(" 12"), None);
}

#[test]
fn parse_range_limits() {
    assert_eq!(parse_i32("2147483647"), Some(i32::MAX));
    assert_eq!(parse_i32("2147483648"), None);
    assert_eq!(parse_i32("-2147483648"), Some(i32::MIN));
    assert_eq!(parse_i32("-2147483649"), None);
}

#[test]
fn second_token_of_status_line() {
    assert_eq!(second_token("VmHWM:     1234 kB").as_deref(), Some("1234"));
    assert_eq!(second_token("VmHWM:\t88 kB").as_deref(), Some("88"));
    assert_eq!(second_token("VmHWM:").as_deref(), None);
    assert_eq!(second_token("  lead 5").as_deref(), Some("5"));
}

fn status(lines: &[&str]) -> MemProbe {
    MemProbe::StatusLines(lines.iter().map(|s| String::from(*s)).collect())
}

#[test]
fn reads_vm_hwm_from_status() {
    let probe = status(&["Name:\tsleep", "VmHWM:     5120 kB", "VmRSS:     100 kB"]);
    assert_eq!(get_mem_peak(&probe), 5120);
}

#[test]
fn missing_line_gives_minus_two() {
    let probe = status(&["Name:\tsleep", "VmRSS:     100 kB"]);
    assert_eq!(get_mem_peak(&probe), -2);
}

#[test]
fn malformed_line_gives_minus_one() {
    let probe = status(&["VmHWM: notanumber kB"]);
    assert_eq!(get_mem_peak(&probe), -1);
    let bare = status(&["VmHWM:"]);
    assert_eq!(get_mem_peak(&bare), -1);
}

#[test]
fn no_pid_and_unreadable_sentinels() {
    assert_eq!(get_mem_peak(&MemProbe::NoPid), -1);
    assert_eq!(get_mem_peak(&MemProbe::Unreadable), -3);
}

#[test]
fn sandbox_wrapper_probes_pid_plus_one() {
    assert_eq!(probe_target_pid(Some(100), true), Some(101));
    assert_eq!(probe_target_pid(Some(100), false), Some(100));
    assert_eq!(probe_target_pid(None, false), None);
}
