use cargo_health::{
    check_status, crate_url, parse_failed_message, request_failed_message, CRATES_IO_API,
    USER_AGENT,
};

#[test]
fn crate_url_appends_the_name_to_the_endpoint() {
    assert_eq!(crate_url("serde"), "https://crates.io/api/v1/crates/serde");
    assert_eq!(crate_url(""), "https://crates.io/api/v1/crates/");
    assert_eq!(CRATES_IO_API, "https://crates.io/api/v1/crates");
}

#[test]
fn user_agent_names_the_tool() {
    assert_eq!(USER_AGENT, "cargo-health/0.1.0 (https://github.com/Philamentous/cargo-health)");
}

#[test]
fn status_200_is_accepted() {
    assert_eq!(check_status(200, "serde"), Ok(()));
}

#[test]
fn other_statuses_are_errors_that_name_them() {
    assert_eq!(
        check_status(404, "no-such-crate"),
        Err("crates.io returned status 404 for no-such-crate".to_string())
    );
    assert_eq!(check_status(0, "x"), Err("crates.io returned status 0 for x".to_string()));
    assert_eq!(check_status(201, "x"), Err("crates.io returned status 201 for x".to_string()));
    assert_eq!(
        check_status(u16::MAX, "x"),
        Err("crates.io returned status 65535 for x".to_string())
    );
}

#[test]
fn failure_messages_name_the_crate_and_the_failure() {
    assert_eq!(
        request_failed_message("serde", "timed out"),
        "HTTP request failed for serde: timed out"
    );
    assert_eq!(
        parse_failed_message("serde", "missing field `crate`"),
        "Failed to parse response for serde: missing field `crate`"
    );
}
