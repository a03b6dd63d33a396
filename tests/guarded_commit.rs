use git_shortcuts::check_staged_changes;
use git_shortcuts::engine::{CommitAction, CommitEvent, CommitStage, GuardedCommit, StatusEntry};
use git_shortcuts::error::Error;

fn entry(index_new: bool, index_modified: bool, index_renamed: bool) -> StatusEntry {
    StatusEntry {
        index_new,
        index_modified,
        index_deleted: false,
        index_renamed,
        index_typechange: false,
    }
}

fn unstaged() -> StatusEntry {
    entry(false, false, false)
}

#[test]
fn no_entries_means_nothing_staged() {
    assert!(matches!(check_staged_changes(&vec![]), Err(Error::NoStagedChanges)));
    assert!(matches!(
        check_staged_changes(&vec![unstaged(), unstaged()]),
        Err(Error::NoStagedChanges)
    ));
}

#[test]
fn any_staged_entry_passes_in_any_position() {
    for kind in 0..5 {
        let staged = StatusEntry {
            index_new: kind == 0,
            index_modified: kind == 1,
            index_deleted: kind == 2,
            index_renamed: kind == 3,
            index_typechange: kind == 4,
        };
        assert!(check_staged_changes(&vec![staged, unstaged(), unstaged()]).is_ok());
        assert!(check_staged_changes(&vec![unstaged(), staged, unstaged()]).is_ok());
        assert!(check_staged_changes(&vec![unstaged(), unstaged(), staged]).is_ok());
    }
}

fn statuses(session: &mut GuardedCommit, entries: Vec<StatusEntry>) -> CommitAction {
    session.step(CommitEvent::Statuses(entries))
}

#[test]
fn session_runs_in_order() {
    let (mut session, first) = GuardedCommit::start();
    assert!(matches!(first, CommitAction::ScanStatus));
    assert!(matches!(statuses(&mut session, vec![entry(true, false, false)]), CommitAction::InspectHead));
    assert!(matches!(session.step(CommitEvent::Head(true)), CommitAction::WriteTree));
    assert!(matches!(session.step(CommitEvent::TreeWritten), CommitAction::ResolveParent));
    assert!(matches!(session.step(CommitEvent::ParentResolved), CommitAction::ReadIdentity));
    match session.step(CommitEvent::Identity(Some("Ada".to_string()), Some("a@b.c".to_string()))) {
        CommitAction::CreateCommit(author) => assert_eq!(author.to_string(), "Ada <a@b.c>"),
        other => panic!("{other:?}"),
    }
    assert!(matches!(session.step(CommitEvent::Committed), CommitAction::Finish));
    assert_eq!(session.stage(), CommitStage::Done);
}

#[test]
fn session_stops_without_staged_changes() {
    let (mut session, _) = GuardedCommit::start();
    assert!(matches!(
        statuses(&mut session, vec![unstaged()]),
        CommitAction::Abort(Error::NoStagedChanges)
    ));
    assert_eq!(session.stage(), CommitStage::Failed);
    assert!(!session.awaits(&CommitEvent::TreeWritten));
}

#[test]
fn detached_head_stops_before_tree() {
    let (mut session, _) = GuardedCommit::start();
    statuses(&mut session, vec![entry(false, true, false)]);
    assert!(session.awaits(&CommitEvent::Head(false)));
    assert!(!session.awaits(&CommitEvent::TreeWritten));
    assert!(matches!(
        session.step(CommitEvent::Head(false)),
        CommitAction::Abort(Error::HeadIsNotABranch)
    ));
    assert_eq!(session.stage(), CommitStage::Failed);
}

#[test]
fn missing_identity_stops_session() {
    let (mut session, _) = GuardedCommit::start();
    statuses(&mut session, vec![entry(false, false, true)]);
    session.step(CommitEvent::Head(true));
    session.step(CommitEvent::TreeWritten);
    session.step(CommitEvent::ParentResolved);
    assert!(matches!(
        session.step(CommitEvent::Identity(Some("Ada".to_string()), None)),
        CommitAction::Abort(Error::MissingUserEmail)
    ));
}
