use upwork_rss::error::PollError;
use upwork_rss::seen::SeenSet;

fn id(text: &str) -> String {
    text.to_string()
}

#[test]
fn zero_capacity_is_refused() {
    assert!(matches!(SeenSet::new(0), Err(PollError::InvalidCapacity)));
}

#[test]
fn new_memory_is_empty() {
    let seen = SeenSet::new(4).unwrap();
    assert_eq!(seen.len(), 0);
    assert_eq!(seen.cap(), 4);
    assert!(!seen.contains("a"));
}

#[test]
fn first_offer_is_new_second_is_not() {
    let mut seen = SeenSet::new(4).unwrap();
    assert!(seen.test_and_admit(id("a")));
    assert!(!seen.test_and_admit(id("a")));
    assert!(seen.contains("a"));
    assert_eq!(seen.len(), 1);
}

#[test]
fn size_never_exceeds_capacity() {
    let mut seen = SeenSet::new(3).unwrap();
    for n in 0..50 {
        seen.test_and_admit(format!("id-{}", n % 7));
        assert!(seen.len() <= seen.cap());
    }
    assert_eq!(seen.len(), 3);
    assert_eq!(seen.cap(), 3);
}

#[test]
fn least_recently_used_leaves_first() {
    let mut seen = SeenSet::new(2).unwrap();
    assert!(seen.test_and_admit(id("a")));
    assert!(seen.test_and_admit(id("b")));
    assert!(seen.test_and_admit(id("c")));
    assert!(!seen.contains("a"));
    assert!(seen.contains("b"));
    assert!(seen.contains("c"));
    assert_eq!(seen.len(), 2);
}

#[test]
fn known_offer_refreshes_recency() {
    let mut seen = SeenSet::new(2).unwrap();
    assert!(seen.test_and_admit(id("a")));
    assert!(seen.test_and_admit(id("b")));
    assert!(!seen.test_and_admit(id("a")));
    assert!(seen.test_and_admit(id("c")));
    assert!(seen.contains("a"));
    assert!(!seen.contains("b"));
    assert!(seen.contains("c"));
}

#[test]
fn contains_does_not_refresh_recency() {
    let mut seen = SeenSet::new(2).unwrap();
    seen.test_and_admit(id("a"));
    seen.test_and_admit(id("b"));
    assert!(seen.contains("a"));
    seen.test_and_admit(id("c"));
    assert!(!seen.contains("a"));
    assert!(seen.contains("b"));
}

#[test]
fn evicted_identity_is_new_again() {
    let mut seen = SeenSet::new(1).unwrap();
    assert!(seen.test_and_admit(id("a")));
    assert!(seen.test_and_admit(id("b")));
    assert!(seen.test_and_admit(id("a")));
    assert_eq!(seen.len(), 1);
}

#[test]
fn empty_identity_is_an_identity() {
    let mut seen = SeenSet::new(2).unwrap();
    assert!(seen.test_and_admit(String::new()));
    assert!(!seen.test_and_admit(String::new()));
    assert!(seen.contains(""));
}
