use windmill_worker::cache::{check_result_size, make_cache_entry, render_cache_entry};
use windmill_worker::envmap::{build_envs_map, env_value};
use windmill_worker::error::{tentatively_improve_error, Error};
use windmill_worker::text::{capitalize, i64_to_string, str_contains, str_starts_with, u64_to_string};
use windmill_worker::MAX_RESULT_SIZE;

#[test]
fn capitalize_simple() {
    assert_eq!(capitalize("hello"), "Hello");
    assert_eq!(capitalize(""), "");
    assert_eq!(capitalize("x"), "X");
    assert_eq!(capitalize("Already"), "Already");
}

#[test]
fn capitalize_can_expand() {
    // The uppercase of a sharp s is two scalar values.
    assert_eq!(capitalize("ßeta"), "SSeta");
}

#[test]
fn decimal_rendering() {
    assert_eq!(u64_to_string(0), "0");
    assert_eq!(u64_to_string(2097152), "2097152");
    assert_eq!(u64_to_string(u64::MAX), "18446744073709551615");
    assert_eq!(i64_to_string(-300), "-300");
    assert_eq!(i64_to_string(i64::MIN), "-9223372036854775808");
}

#[test]
fn prefix_and_substring_tests() {
    assert!(str_starts_with("$var:path", "$var:"));
    assert!(!str_starts_with("$var", "$var:"));
    assert!(str_contains("say $res:a/b now", "$res:"));
    assert!(!str_contains("plain", "$var:"));
    assert!(str_contains("anything", ""));
}

#[test]
fn missing_executable_error_is_rewritten() {
    let err = Error::IoErr(String::from("No such file or directory (os error 2)"));
    let improved = tentatively_improve_error(err, "python3");
    match improved {
        Error::InternalErr(m) => assert_eq!(m, "Executable python3 not found on worker"),
        _ => panic!("expected InternalErr"),
    }
}

#[test]
fn other_errors_pass_through() {
    let err = Error::IoErr(String::from("Permission denied (os error 13)"));
    match tentatively_improve_error(err, "python3") {
        Error::IoErr(m) => assert_eq!(m, "Permission denied (os error 13)"),
        _ => panic!("expected the error unchanged"),
    }
}

#[test]
fn result_size_ceiling_applies_only_cloud_hosted() {
    assert!(check_result_size(MAX_RESULT_SIZE, true).is_ok());
    assert!(check_result_size(MAX_RESULT_SIZE + 1, false).is_ok());
    let e = check_result_size(MAX_RESULT_SIZE + 1, true).unwrap_err();
    match e {
        Error::ExecutionErr(m) => {
            assert!(m.starts_with("Result is too large for the cloud app (limit 2MB)."))
        }
        _ => panic!("expected ExecutionErr"),
    }
}

#[test]
fn cache_entry_renders_expire_and_raw_value() {
    let entry = make_cache_entry(1000, 60, String::from("{\"ok\":true}"));
    assert_eq!(entry.expire, 1060);
    assert_eq!(
        render_cache_entry(&entry),
        "{\"expire\":1060,\"value\":{\"ok\":true}}"
    );
}

#[test]
fn worker_overrides_win_in_env_map() {
    let context = vec![
        (String::from("WM_JOB"), String::from("ctx-job")),
        (String::from("PATH"), String::from("/ctx/bin")),
    ];
    let overrides = vec![(String::from("PATH"), String::from("/worker/bin"))];
    let built = build_envs_map(context, &overrides);
    assert_eq!(env_value(&built, "PATH").as_deref(), Some("/worker/bin"));
    assert_eq!(env_value(&built, "WM_JOB").as_deref(), Some("ctx-job"));
    assert_eq!(env_value(&built, "MISSING"), None);
}
