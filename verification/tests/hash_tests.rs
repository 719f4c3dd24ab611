use windmill_worker::hash::hash_args;

fn pairs(items: &[(&str, &str)]) -> Option<Vec<(String, String)>> {
    Some(items.iter().map(|(k, v)| (String::from(*k), String::from(*v))).collect())
}

#[test]
fn absent_args_hash_to_fixed_text() {
    assert_eq!(hash_args(&None), "empty_args");
}

#[test]
fn hash_is_sixteen_lowercase_hex_digits() {
    let h = hash_args(&pairs(&[("a", "1")]));
    assert_eq!(h.len(), 16);
    assert!(h.chars().all(|c| c.is_ascii_digit() || ('a'..='f').contains(&c)));
}

#[test]
fn insertion_order_does_not_matter() {
    let h1 = hash_args(&pairs(&[("a", "1"), ("b", "2"), ("c", "3")]));
    let h2 = hash_args(&pairs(&[("c", "3"), ("a", "1"), ("b", "2")]));
    let h3 = hash_args(&pairs(&[("b", "2"), ("c", "3"), ("a", "1")]));
    assert_eq!(h1, h2);
    assert_eq!(h1, h3);
}

#[test]
fn contents_do_matter() {
    let h1 = hash_args(&pairs(&[("a", "1")]));
    let h2 = hash_args(&pairs(&[("a", "2")]));
    let h3 = hash_args(&pairs(&[("b", "1")]));
    assert_ne!(h1, h2);
    assert_ne!(h1, h3);
}

#[test]
fn hash_is_deterministic_across_calls() {
    let m = pairs(&[("key", "{\"deep\":true}"), ("other", "null")]);
    assert_eq!(hash_args(&m), hash_args(&m));
}
