use rfortune::store::read_quote;
use rfortune::store_update::{SaveAction, SaveEvent, SaveFailure, SavePhase, SaveSession};

fn session(replace_unsupported: bool) -> SaveSession {
    SaveSession::new(
        "/src/a.dat".to_string(),
        "Quote A".to_string(),
        "/d/last_quotes.json.tmp.5".to_string(),
        replace_unsupported,
    )
}

#[test]
fn update_runs_lock_read_write_unlock_rename() {
    let mut s = session(false);
    assert!(matches!(s.next(SaveEvent::Begin), SaveAction::CreateDir));
    assert!(matches!(s.next(SaveEvent::Done), SaveAction::OpenLocked));
    assert!(matches!(s.next(SaveEvent::Done), SaveAction::ReadStore));
    let existing = "{\"/src/b.dat\": \"Quote B\"}".to_string();
    match s.next(SaveEvent::Content(existing)) {
        SaveAction::WriteTemp { path, content } => {
            assert_eq!(path, "/d/last_quotes.json.tmp.5");
            assert_eq!(read_quote(&content, "/src/a.dat").unwrap(), "Quote A");
            assert_eq!(read_quote(&content, "/src/b.dat").unwrap(), "Quote B");
        }
        _ => panic!("expected a write of the temporary file"),
    }
    assert!(matches!(s.next(SaveEvent::Done), SaveAction::Unlock));
    assert!(matches!(s.next(SaveEvent::Done), SaveAction::Rename));
    assert!(matches!(s.next(SaveEvent::Done), SaveAction::Finish));
    assert_eq!(s.phase(), SavePhase::Finished);
}

#[test]
fn empty_store_is_merged_from_nothing() {
    let mut s = session(false);
    s.next(SaveEvent::Begin);
    s.next(SaveEvent::Done);
    s.next(SaveEvent::Done);
    match s.next(SaveEvent::Content(String::new())) {
        SaveAction::WriteTemp { content, .. } => {
            assert_eq!(read_quote(&content, "/src/a.dat").unwrap(), "Quote A");
        }
        _ => panic!("expected a write of the temporary file"),
    }
}

#[test]
fn lock_failure_stops_the_update() {
    let mut s = session(false);
    s.next(SaveEvent::Begin);
    s.next(SaveEvent::Done);
    assert!(matches!(s.next(SaveEvent::Failed), SaveAction::Fail(SaveFailure::Lock)));
    assert_eq!(s.phase(), SavePhase::Failed);
    assert!(matches!(s.next(SaveEvent::Done), SaveAction::Fail(SaveFailure::Lock)));
}

#[test]
fn dir_and_read_and_write_failures() {
    let mut s = session(false);
    s.next(SaveEvent::Begin);
    assert!(matches!(s.next(SaveEvent::Failed), SaveAction::Fail(SaveFailure::Dir)));

    let mut s = session(false);
    s.next(SaveEvent::Begin);
    s.next(SaveEvent::Done);
    s.next(SaveEvent::Done);
    assert!(matches!(s.next(SaveEvent::Failed), SaveAction::Fail(SaveFailure::Read)));

    let mut s = session(false);
    s.next(SaveEvent::Begin);
    s.next(SaveEvent::Done);
    s.next(SaveEvent::Done);
    s.next(SaveEvent::Content(String::new()));
    assert!(matches!(s.next(SaveEvent::Failed), SaveAction::Fail(SaveFailure::WriteTemp)));
}

fn to_rename(s: &mut SaveSession) {
    s.next(SaveEvent::Begin);
    s.next(SaveEvent::Done);
    s.next(SaveEvent::Done);
    s.next(SaveEvent::Content(String::new()));
    s.next(SaveEvent::Done);
    assert!(matches!(s.next(SaveEvent::Done), SaveAction::Rename));
}

#[test]
fn failed_rename_removes_store_where_replace_is_unsupported() {
    let mut s = session(true);
    to_rename(&mut s);
    assert!(matches!(s.next(SaveEvent::RenameFailed(true)), SaveAction::RemoveStore));
    assert!(matches!(s.next(SaveEvent::Done), SaveAction::Rename));
    assert!(matches!(s.next(SaveEvent::Done), SaveAction::Finish));
}

#[test]
fn failed_rename_fails_otherwise() {
    let mut s = session(false);
    to_rename(&mut s);
    assert!(matches!(s.next(SaveEvent::RenameFailed(true)), SaveAction::Fail(SaveFailure::Rename)));

    let mut s = session(true);
    to_rename(&mut s);
    assert!(matches!(s.next(SaveEvent::RenameFailed(false)), SaveAction::Fail(SaveFailure::Rename)));

    let mut s = session(true);
    to_rename(&mut s);
    s.next(SaveEvent::RenameFailed(true));
    assert!(matches!(s.next(SaveEvent::Failed), SaveAction::Fail(SaveFailure::Remove)));
}
