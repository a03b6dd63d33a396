use git_shortcuts::branch::{match_branch_name, parse_issue_number};
use git_shortcuts::config::{BranchInfo, Config};
use git_shortcuts::error::Error;

fn analytics() -> Config {
    let mut config = Config::new();
    config.insert("A".to_string(), "ANALYTICS".to_string());
    config
}

fn resolved(config: &Config, name: &str) -> (String, u32) {
    match config.extract_branch_info(name) {
        Ok(BranchInfo(team, issue)) => (team, issue),
        Err(e) => panic!("{name} did not resolve: {e:?}"),
    }
}

#[test]
fn resolves_registered_prefix_with_hyphen() {
    assert_eq!(resolved(&analytics(), "A-123-login-fix"), ("ANALYTICS".to_string(), 123));
}

#[test]
fn resolves_registered_prefix_without_hyphen() {
    assert_eq!(resolved(&analytics(), "A77"), ("ANALYTICS".to_string(), 77));
}

#[test]
fn resolves_leading_zeros_and_largest_issue() {
    let config = analytics();
    assert_eq!(resolved(&config, "A-007-x"), ("ANALYTICS".to_string(), 7));
    assert_eq!(resolved(&config, "A-4294967295"), ("ANALYTICS".to_string(), 4294967295));
}

#[test]
fn digit_run_is_taken_whole() {
    assert_eq!(resolved(&analytics(), "A-12345abc6"), ("ANALYTICS".to_string(), 12345));
}

#[test]
fn leftmost_match_wins() {
    let mut config = analytics();
    config.insert("B".to_string(), "BILLING".to_string());
    assert_eq!(resolved(&config, "feature/AB-12-A-3"), ("BILLING".to_string(), 12));
    assert_eq!(resolved(&config, "x-A-5-B-6"), ("ANALYTICS".to_string(), 5));
}

#[test]
fn unmatched_names_are_invalid() {
    let config = analytics();
    for name in ["", "main", "a-123", "A-", "A--1", "A", "-123", "123"] {
        match config.extract_branch_info(name) {
            Err(Error::InvalidBranchName(n)) => assert_eq!(n, name),
            other => panic!("{name}: {other:?}"),
        }
    }
}

#[test]
fn unregistered_prefix_is_reported() {
    match analytics().extract_branch_info("Z-9-x") {
        Err(Error::UnknownPrefix(p)) => assert_eq!(p, "Z"),
        other => panic!("{other:?}"),
    }
}

#[test]
fn unregistered_prefix_comes_before_overflow() {
    match analytics().extract_branch_info("Q-99999999999") {
        Err(Error::UnknownPrefix(p)) => assert_eq!(p, "Q"),
        other => panic!("{other:?}"),
    }
}

#[test]
fn overflowing_issue_number_is_reported() {
    match analytics().extract_branch_info("A-4294967296-x") {
        Err(Error::InvalidIssueNumber(d)) => assert_eq!(d, "4294967296"),
        other => panic!("{other:?}"),
    }
}

#[test]
fn captures_prefix_and_digits() {
    assert_eq!(
        match_branch_name("fix/C-0042tail"),
        Some(("C".to_string(), "0042".to_string()))
    );
    assert_eq!(match_branch_name("no ticket here"), None);
}

#[test]
fn parses_issue_numbers() {
    assert_eq!(parse_issue_number("0"), Some(0));
    assert_eq!(parse_issue_number("00123"), Some(123));
    assert_eq!(parse_issue_number("4294967295"), Some(4294967295));
    assert_eq!(parse_issue_number("4294967296"), None);
    assert_eq!(parse_issue_number("123456789012345678901234567890"), None);
    assert_eq!(parse_issue_number(""), None);
    assert_eq!(parse_issue_number("12a"), None);
    assert_eq!(parse_issue_number("+1"), None);
}

#[test]
fn registry_lookup_and_replace() {
    let mut config = analytics();
    assert_eq!(config.lookup("A").ok(), Some("ANALYTICS".to_string()));
    config.insert("A".to_string(), "ACCOUNTS".to_string());
    assert_eq!(config.lookup("A").ok(), Some("ACCOUNTS".to_string()));
    assert_eq!(config.prefixes().len(), 1);
    match config.lookup("B") {
        Err(Error::UnknownPrefix(p)) => assert_eq!(p, "B"),
        other => panic!("{other:?}"),
    }
}

#[test]
fn prefixes_are_case_sensitive() {
    let mut config = Config::new();
    config.insert("a".to_string(), "lower".to_string());
    match config.extract_branch_info("a-1 A-2") {
        Err(Error::UnknownPrefix(p)) => assert_eq!(p, "A"),
        other => panic!("{other:?}"),
    }
}
