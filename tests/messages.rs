use git_shortcuts::commit::{Author, CommitMessage, FeatMessage, FixMessage};
use git_shortcuts::config::{BranchInfo, Config};
use git_shortcuts::error::Error;

fn analytics() -> Config {
    let mut config = Config::new();
    config.insert("A".to_string(), "ANALYTICS".to_string());
    config
}

fn feat_for(branch: &str, body: &str, breaking: bool) -> String {
    let info = analytics().extract_branch_info(branch).unwrap();
    FeatMessage::new(info, body.to_string(), breaking).unwrap().to_string()
}

#[test]
fn feature_message_end_to_end() {
    assert_eq!(
        feat_for("A-123-login-fix", "add login button", false),
        "feat(ANALYTICS-123): add login button"
    );
}

#[test]
fn breaking_feature_message_end_to_end() {
    assert_eq!(
        feat_for("A-123-login-fix", "add login button", true),
        "feat!(ANALYTICS-123): add login button"
    );
}

#[test]
fn fix_message_has_no_marker() {
    let info = BranchInfo("CORE".to_string(), 9);
    let text = FixMessage::new(info, "stop the crash!".to_string()).unwrap().to_string();
    assert_eq!(text, "fix(CORE-9): stop the crash!");
    assert!(!text[..text.find('(').unwrap()].contains('!'));
}

#[test]
fn subject_renders_fields_exactly() {
    let m = CommitMessage::new("T".to_string(), 0, "b".to_string()).unwrap();
    assert_eq!(m.to_string(), "(T-0): b");
    let m = CommitMessage::new("web-app".to_string(), 4294967295, "x: y".to_string()).unwrap();
    assert_eq!(m.to_string(), "(web-app-4294967295): x: y");
    let m = CommitMessage::new("Équipe".to_string(), 1020, "déjà vu".to_string()).unwrap();
    assert_eq!(m.to_string(), "(Équipe-1020): déjà vu");
}

#[test]
fn rendered_subject_reads_back() {
    let m = CommitMessage::new("web-app".to_string(), 77, "a ): b".to_string()).unwrap();
    let text = m.to_string();
    let close = text.find(')').unwrap();
    let inner = &text[1..close];
    let dash = inner.rfind('-').unwrap();
    assert_eq!(&inner[..dash], "web-app");
    assert_eq!(inner[dash + 1..].parse::<u32>().unwrap(), 77);
    assert_eq!(&text[close + 3..], "a ): b");
}

#[test]
fn feature_marker_follows_flag() {
    let info = || BranchInfo("T".to_string(), 5);
    let plain = FeatMessage::new(info(), "go".to_string(), false).unwrap().to_string();
    let breaking = FeatMessage::new(info(), "go".to_string(), true).unwrap().to_string();
    assert_eq!(plain, "feat(T-5): go");
    assert_eq!(breaking, "feat!(T-5): go");
}

#[test]
fn empty_fields_are_rejected() {
    assert!(matches!(
        CommitMessage::new(String::new(), 1, "b".to_string()),
        Err(Error::EmptyTeamName)
    ));
    assert!(matches!(
        CommitMessage::new("T".to_string(), 1, String::new()),
        Err(Error::EmptyMessage)
    ));
    assert!(matches!(
        FixMessage::new(BranchInfo("T".to_string(), 1), String::new()),
        Err(Error::EmptyMessage)
    ));
    assert!(matches!(
        FeatMessage::new(BranchInfo(String::new(), 1), String::new(), true),
        Err(Error::EmptyTeamName)
    ));
}

#[test]
fn author_identity() {
    let a = Author::new(Some("Ada".to_string()), Some("ada@example.org".to_string())).unwrap();
    assert_eq!(a.name(), "Ada");
    assert_eq!(a.email(), "ada@example.org");
    assert_eq!(a.to_string(), "Ada <ada@example.org>");
}

#[test]
fn author_identity_must_be_present() {
    assert!(matches!(
        Author::new(None, Some("e".to_string())),
        Err(Error::MissingUserName)
    ));
    assert!(matches!(
        Author::new(Some(String::new()), None),
        Err(Error::MissingUserName)
    ));
    assert!(matches!(
        Author::new(Some("n".to_string()), None),
        Err(Error::MissingUserEmail)
    ));
    assert!(matches!(
        Author::new(Some("n".to_string()), Some(String::new())),
        Err(Error::MissingUserEmail)
    ));
}
