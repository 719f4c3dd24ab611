use windmill_worker::error::Error;
use windmill_worker::interp::{
    build_args_map, build_args_values, clone_jval, jval_has_marker, raw_value, transform_json,
    transform_json_as_values, transform_json_value, InterpEnv, JVal,
};

fn s(text: &str) -> JVal {
    JVal::Str(String::from(text))
}

fn raw(text: &str) -> JVal {
    JVal::Raw(String::from(text))
}

fn env_with(vars: &[(&str, &str)], ress: &[(&str, JVal)], rsvd: &[(&str, &str)]) -> InterpEnv {
    InterpEnv {
        variables: vars.iter().map(|(k, v)| (String::from(*k), String::from(*v))).collect(),
        resources: ress.iter().map(|(k, v)| (String::from(*k), clone_jval(v))).collect(),
        reserved: rsvd.iter().map(|(k, v)| (String::from(*k), String::from(*v))).collect(),
    }
}

fn text_of(v: &JVal) -> &str {
    match v {
        JVal::Str(t) => t.as_str(),
        JVal::Raw(t) => t.as_str(),
        JVal::Obj(_) => panic!("expected a leaf value"),
    }
}

#[test]
fn variable_placeholder_resolves() {
    let env = env_with(&[("p", "secret")], &[], &[]);
    let r = transform_json_value("a", s("$var:p"), &env).unwrap();
    assert_eq!(text_of(&r), "secret");
}

#[test]
fn missing_variable_reports_not_found() {
    let env = env_with(&[], &[], &[]);
    let e = transform_json_value("a", s("$var:p"), &env).unwrap_err();
    match e {
        Error::NotFound(m) => assert_eq!(m, "Variable p not found for `a`: variable not found in environment"),
        _ => panic!("expected NotFound"),
    }
}

#[test]
fn missing_resource_reports_not_found() {
    let env = env_with(&[("p", "x")], &[], &[]);
    let e = transform_json_value("b", s("$res:ws/r"), &env).unwrap_err();
    match e {
        Error::NotFound(m) => assert_eq!(m, "Resource ws/r not found for `b`: resource not found in environment"),
        _ => panic!("expected NotFound"),
    }
}

#[test]
fn resource_path_without_slash_is_invalid() {
    let env = env_with(&[], &[("ws/r", s("v"))], &[]);
    let e = transform_json_value("b", s("$res:bare"), &env).unwrap_err();
    match e {
        Error::InternalErr(m) => {
            assert_eq!(m, "Argument `b` is an invalid resource path: bare")
        }
        _ => panic!("expected InternalErr"),
    }
}

#[test]
fn resource_placeholder_resolves() {
    let env = env_with(&[], &[("ws/r", raw("{\"x\":1}"))], &[]);
    let r = transform_json_value("b", s("$res:ws/r"), &env).unwrap();
    assert_eq!(text_of(&r), "{\"x\":1}");
}

#[test]
fn reserved_variable_substitutes_or_keeps() {
    let env = env_with(&[], &[], &[("workspace", "ws1")]);
    let hit = transform_json_value("c", s("$workspace"), &env).unwrap();
    assert_eq!(text_of(&hit), "ws1");
    let miss = transform_json_value("c", s("$unknown"), &env).unwrap();
    assert_eq!(text_of(&miss), "$unknown");
}

#[test]
fn objects_recurse_per_field() {
    let env = env_with(&[("p", "secret")], &[], &[]);
    let obj = JVal::Obj(vec![
        (String::from("inner"), s("$var:p")),
        (String::from("plain"), s("literal")),
    ]);
    let r = transform_json_value("o", obj, &env).unwrap();
    match r {
        JVal::Obj(fields) => {
            assert_eq!(fields.len(), 2);
            assert_eq!(fields[0].0, "inner");
            assert_eq!(text_of(&fields[0].1), "secret");
            assert_eq!(text_of(&fields[1].1), "literal");
        }
        _ => panic!("expected an object"),
    }
}

#[test]
fn map_with_missing_resource_aborts() {
    // The first failing entry decides; nothing is materialised.
    let env = env_with(&[("p", "vp")], &[], &[]);
    let map = vec![
        (String::from("a"), s("$var:p")),
        (String::from("b"), s("$res:ws/r")),
        (String::from("c"), s("literal")),
    ];
    let e = transform_json(&map, &env).unwrap_err();
    match e {
        Error::NotFound(m) => assert_eq!(m, "Resource ws/r not found for `b`: resource not found in environment"),
        _ => panic!("expected NotFound"),
    }
}

#[test]
fn marker_free_map_takes_fast_path() {
    let env = env_with(&[], &[], &[]);
    let map = vec![
        (String::from("a"), s("plain")),
        (String::from("b"), raw("17")),
    ];
    assert!(transform_json(&map, &env).unwrap().is_none());
}

#[test]
fn fast_path_is_idempotent() {
    // A marker-free map is returned unchanged, so a second interpolation of
    // the same map again changes nothing.
    let env = env_with(&[], &[], &[]);
    let map = vec![(String::from("a"), s("no placeholders here"))];
    assert!(transform_json(&map, &env).unwrap().is_none());
    assert!(transform_json(&map, &env).unwrap().is_none());
}

#[test]
fn transformed_map_rewrites_marked_values() {
    let env = env_with(&[("p", "vp")], &[], &[]);
    let map = vec![
        (String::from("a"), s("$var:p")),
        (String::from("c"), s("literal")),
    ];
    let out = transform_json(&map, &env).unwrap().expect("map has markers");
    assert_eq!(text_of(&out[0].1), "vp");
    assert_eq!(text_of(&out[1].1), "literal");
    let vals = transform_json_as_values(&map, &env).unwrap();
    assert_eq!(text_of(&vals[0].1), "vp");
}

#[test]
fn absent_args_stay_absent() {
    let env = env_with(&[], &[], &[]);
    assert!(build_args_map(&None, &env).unwrap().is_none());
    assert!(build_args_values(&None, &env).unwrap().is_empty());
}

#[test]
fn marker_detection_sees_nested_values() {
    let nested = JVal::Obj(vec![(String::from("k"), s("see $res:a/b inside"))]);
    assert!(jval_has_marker(&nested));
    assert!(!jval_has_marker(&s("$reserved_only")));
    assert!(jval_has_marker(&raw("\"$var:x\"")));
}

#[test]
fn raw_value_wraps_without_reparsing() {
    let r = raw_value(String::from("[1,2,3]"));
    assert_eq!(text_of(&r), "[1,2,3]");
}
