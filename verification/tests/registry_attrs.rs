use peeps::attrs::{attrs_with_created_at, inject_elapsed_ns, strip_created_at_prefix};
use peeps::json::push_string_member;

#[test]
fn inject_elapsed_ns_empty_object() {
    assert_eq!(inject_elapsed_ns("{}", 123), "{\"elapsed_ns\":123}");
}

#[test]
fn inject_elapsed_ns_inserts_with_comma() {
    assert_eq!(inject_elapsed_ns("{\"a\":1}", 9), "{\"a\":1,\"elapsed_ns\":9}");
}

#[test]
fn inject_elapsed_ns_inserts_without_comma_when_whitespace() {
    assert_eq!(inject_elapsed_ns("{  }", 42), "{  \"elapsed_ns\":42}");
}

#[test]
fn inject_elapsed_ns_noop_if_present() {
    assert_eq!(
        inject_elapsed_ns("{\"elapsed_ns\":1,\"a\":2}", 9),
        "{\"elapsed_ns\":1,\"a\":2}"
    );
}

#[test]
fn inject_elapsed_ns_noop_if_not_object() {
    assert_eq!(inject_elapsed_ns("[]", 9), "[]");
    assert_eq!(inject_elapsed_ns("nope", 9), "nope");
}

#[test]
fn stripping_created_at_takes_back_what_was_added() {
    let plain = "{\"source\":\"src/main.rs:3\",\"n\":1}".to_string();
    for created_at in [-42i64, 0, 1_700_000_000_000] {
        let with = attrs_with_created_at(
            plain.clone(),
            created_at,
            Some("src/main.rs:3".to_string()),
        );
        assert!(with.starts_with("{\"created_at\":"));
        assert_eq!(strip_created_at_prefix(with), plain);
    }
}

#[test]
fn string_members_are_escaped_as_json() {
    let mut out: Vec<char> = Vec::new();
    push_string_member(&mut out, "\"k\":", "a\"b\\c\nd\u{1}\u{1f}é\t");
    let text: String = out.into_iter().collect();
    assert_eq!(text, "\"k\":\"a\\\"b\\\\c\\nd\\u0001\\u001fé\\t\"");
}
