use std::time::Duration;
use upwork_rss::config::{label_of_name, parse_countries, parse_duration, Config};

#[test]
fn seconds_are_read() {
    assert_eq!(parse_duration("15"), Ok(Duration::from_secs(15)));
    assert_eq!(parse_duration("0"), Ok(Duration::from_secs(0)));
    assert_eq!(parse_duration("007"), Ok(Duration::from_secs(7)));
}

#[test]
fn a_plus_sign_is_accepted() {
    assert_eq!(parse_duration("+30"), Ok(Duration::from_secs(30)));
}

#[test]
fn the_largest_number_is_read() {
    assert_eq!(parse_duration("18446744073709551615"), Ok(Duration::from_secs(u64::MAX)));
}

#[test]
fn a_number_too_large_is_refused() {
    assert!(parse_duration("18446744073709551616").is_err());
}

#[test]
fn empty_text_is_refused() {
    assert!(parse_duration("").is_err());
    assert!(parse_duration("+").is_err());
}

#[test]
fn other_characters_are_refused() {
    assert!(parse_duration("abc").is_err());
    assert!(parse_duration("1.5").is_err());
    assert!(parse_duration(" 5").is_err());
    assert!(parse_duration("5 ").is_err());
    assert!(parse_duration("-5").is_err());
    assert!(parse_duration("++5").is_err());
    assert!(parse_duration("1_000").is_err());
    assert!(parse_duration("5s").is_err());
}

#[test]
fn parsed_interval_has_no_fraction() {
    let d = parse_duration("42").unwrap();
    assert_eq!(d.as_secs(), 42);
    assert_eq!(d.subsec_nanos(), 0);
}

#[test]
fn settings_hold_what_they_are_given() {
    let cfg = Config {
        interval: parse_duration("60").unwrap(),
        paging: 25,
        query: "rust".to_string(),
        smtp_server: "mail.example.org".to_string(),
        smtp_port: 587,
        smtp_username: "watcher@example.org".to_string(),
        smtp_password: "example".to_string(),
        recipient: "me@example.org".to_string(),
        first_run: false,
        countries: vec!["France".to_string()],
    };
    assert_eq!(cfg.interval, Duration::from_secs(60));
    assert_eq!(cfg.paging, 25);
    assert_eq!(cfg.smtp_port, 587);
    assert!(!cfg.first_run);
    assert_eq!(cfg.countries, vec!["France"]);
}

#[test]
fn country_codes_become_names() {
    let names = parse_countries("FR DE").unwrap();
    assert_eq!(names, vec!["France", "Germany"]);
}

#[test]
fn country_codes_are_read_in_either_case() {
    let names = parse_countries("fr Es iT").unwrap();
    assert_eq!(names, vec!["France", "Spain", "Italy"]);
}

#[test]
fn country_codes_are_split_at_any_white_space() {
    let names = parse_countries("  fr\t\tde\n jp  ").unwrap();
    assert_eq!(names, vec!["France", "Germany", "Japan"]);
}

#[test]
fn the_united_states_lose_their_suffix() {
    assert_eq!(parse_countries("us").unwrap(), vec!["United States"]);
}

#[test]
fn no_codes_make_an_empty_list() {
    assert!(parse_countries("").unwrap().is_empty());
    assert!(parse_countries(" \n ").unwrap().is_empty());
}

#[test]
fn first_unknown_code_is_handed_back_in_capitals() {
    let err = parse_countries("fr zz qq").unwrap_err();
    assert_eq!(err.code, "ZZ");
    let err = parse_countries("france").unwrap_err();
    assert_eq!(err.code, "FRANCE");
}

#[test]
fn label_drops_each_suffix() {
    assert_eq!(label_of_name(None), None);
    assert_eq!(
        label_of_name(Some("United States of America".to_string())),
        Some("United States".to_string())
    );
    assert_eq!(
        label_of_name(Some("A of America of America B of Americ".to_string())),
        Some("A B of Americ".to_string())
    );
    assert_eq!(label_of_name(Some("Chile".to_string())), Some("Chile".to_string()));
}
