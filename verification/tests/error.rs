use armonik_api::error::{describe, looks_like_a_source_location, strip_location};

#[test]
fn a_trailing_source_location_is_dropped() {
    let message = "Could not connect to the remote https://x [src/connect.rs:64:9]";
    assert_eq!(
        strip_location(message),
        "Could not connect to the remote https://x"
    );
}

#[test]
fn a_message_with_no_location_is_untouched() {
    let message = "connection refused (os error 111)";
    assert_eq!(strip_location(message), message);
}

#[test]
fn an_ipv6_address_is_not_mistaken_for_a_location() {
    let message = "could not reach [::1]";
    assert_eq!(strip_location(message), message);
}

#[test]
fn a_location_needs_digits_on_both_sides() {
    assert!(looks_like_a_source_location("src/connect.rs:64:9"));
    assert!(!looks_like_a_source_location("src/connect.rs:64:"));
    assert!(!looks_like_a_source_location("src/connect.rs:x:9"));
    assert!(!looks_like_a_source_location("src/connect.txt:64:9"));
    assert!(!looks_like_a_source_location("64:9"));
    assert!(looks_like_a_source_location("C:/a/b.rs:1:2"));
}

#[test]
fn only_the_last_tag_is_considered() {
    let message = "a [x.rs:1:2] b";
    assert_eq!(strip_location(message), message);
    assert_eq!(strip_location("a [x.rs:1:2]   [y.rs:3:4]"), "a [x.rs:1:2]");
}

#[test]
fn the_chain_is_joined_and_every_level_stripped() {
    let chain = vec![
        "Could not connect to the remote [src/connect.rs:64:9]".to_string(),
        "transport error [src/lib.rs:1:1]".to_string(),
        "connection refused".to_string(),
    ];
    assert_eq!(
        describe(&chain),
        "Could not connect to the remote: transport error: connection refused"
    );
    assert_eq!(describe(&vec!["only".to_string()]), "only");
    assert_eq!(describe(&Vec::new()), "");
}

#[test]
fn stripping_only_shortens_the_message() {
    let message = "two tags [a/b.rs:1:2] [c/d.rs:3:4]";
    let stripped = strip_location(message);
    assert_eq!(stripped, "two tags [a/b.rs:1:2]");
    assert!(message.starts_with(stripped.as_str()));
}
