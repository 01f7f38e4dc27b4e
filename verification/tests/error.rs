use upwork_rss::error::PollError;

#[test]
fn only_construction_failure_is_final() {
    assert!(PollError::Fetch { cause: "timed out".to_string() }.is_transient());
    assert!(PollError::Parse { cause: "no channel".to_string() }.is_transient());
    assert!(PollError::Notify { cause: "relay refused".to_string() }.is_transient());
    assert!(!PollError::InvalidCapacity.is_transient());
}
