use copybara::workflow::{Action, Event, HaltReason, OriginCommit, Stage};
use copybara::{Context, Destination, FrozenDynamicTagCallable, FrozenTransform, Origin, Store, Workflow};

fn workflow() -> Workflow {
    Workflow::new(
        "mirror".to_string(),
        Origin::new("https://example.org/up".to_string(), "main".to_string()),
        Destination::new("https://example.org/down".to_string(), "export".to_string()),
    )
}

fn commit(id: &str, message: &str) -> OriginCommit {
    OriginCommit { id: id.to_string(), message: message.to_string() }
}

fn expect_clone(a: Action, url: &str, branch: &str, path: &str) {
    match a {
        Action::Clone { url: u, branch: b, path: p } => {
            assert_eq!((u.as_str(), b.as_str(), p.as_str()), (url, branch, path));
        }
        other => panic!("expected a clone, got {:?}", other),
    }
}

#[test]
fn complete_run_migrates_each_commit_in_order() {
    let w = workflow();
    let (s, a) = w.execute(Stage::Idle, Event::Start);
    expect_clone(a, "https://example.org/up", "main", "cache/https:--example.org-up-main");
    let (s, a) = w.execute(s, Event::Cloned);
    expect_clone(a, "https://example.org/down", "export", "cache/https:--example.org-down-export");
    let (s, a) = w.execute(s, Event::Cloned);
    assert!(matches!(a, Action::ReadHistory));
    let history = vec![Some("Import\n\nGitOrigin-RevId: base1\n".to_string())];
    let (s, a) = w.execute(s, Event::History(history));
    match a {
        Action::ListCommits { range } => assert_eq!(range, "base1..HEAD"),
        other => panic!("unexpected {:?}", other),
    }
    let commits = vec![commit("c1", "First\n"), commit("c2", "Second\n")];
    let (s, a) = w.execute(s, Event::Commits(commits));
    match a {
        Action::Migrate { id, message } => {
            assert_eq!(id, "c1");
            assert_eq!(message, "First\n\nGitOrigin-RevId: c1");
        }
        other => panic!("unexpected {:?}", other),
    }
    assert!(s.awaits(&Event::Migrated));
    assert!(!s.awaits(&Event::Start));
    let (s, a) = w.execute(s, Event::Migrated);
    match a {
        Action::Migrate { id, message } => {
            assert_eq!(id, "c2");
            assert_eq!(message, "Second\n\nGitOrigin-RevId: c2");
        }
        other => panic!("unexpected {:?}", other),
    }
    let (s, a) = w.execute(s, Event::Migrated);
    assert!(matches!(a, Action::Finish));
    assert!(matches!(s, Stage::Finished));
    assert!(!s.awaits(&Event::Migrated));
}

#[test]
fn nothing_to_migrate_finishes() {
    let w = workflow();
    let (s, a) = w.execute(Stage::ListingCommits, Event::Commits(Vec::new()));
    assert!(matches!(a, Action::Finish));
    assert!(matches!(s, Stage::Finished));
}

#[test]
fn history_without_revision_asks_for_initial_revision() {
    let w = workflow();
    let (s, a) = w.execute(Stage::ReadingHistory, Event::History(vec![Some("plain\n".to_string())]));
    assert!(matches!(a, Action::Halt(HaltReason::InitialRevisionRequired)));
    assert!(matches!(s, Stage::Halted));
}

#[test]
fn unreadable_history_fails() {
    let w = workflow();
    let (s, a) = w.execute(Stage::ReadingHistory, Event::History(vec![Some("a\0b".to_string())]));
    assert!(matches!(a, Action::Fail(_)));
    assert!(matches!(s, Stage::Halted));
}

#[test]
fn initial_revision_is_the_start_when_nothing_is_recorded() {
    let mut w = workflow();
    assert_eq!(w.initial_revision(), &None);
    w.set_initial_revision(Some("r0".to_string()));
    assert_eq!(w.initial_revision(), &Some("r0".to_string()));
    let (s, a) = w.execute(Stage::ReadingHistory, Event::History(vec![Some("plain\n".to_string()), None]));
    match a {
        Action::ListCommits { range } => assert_eq!(range, "r0..HEAD"),
        other => panic!("unexpected {:?}", other),
    }
    let (s, a) = w.execute(s, Event::Commits(vec![commit("c9", "Nine\n")]));
    match a {
        Action::Migrate { id, message } => {
            assert_eq!(id, "c9");
            assert_eq!(message, "Nine\n\nGitOrigin-RevId: c9");
        }
        other => panic!("unexpected {:?}", other),
    }
    let (_, a) = w.execute(s, Event::Migrated);
    assert!(matches!(a, Action::Finish));
}

#[test]
fn recorded_revision_wins_over_initial_revision() {
    let mut w = workflow();
    w.set_initial_revision(Some("r0".to_string()));
    let history = vec![Some("Import\n\nGitOrigin-RevId: base7\n".to_string())];
    let (_, a) = w.execute(Stage::ReadingHistory, Event::History(history));
    match a {
        Action::ListCommits { range } => assert_eq!(range, "base7..HEAD"),
        other => panic!("unexpected {:?}", other),
    }
}

#[test]
fn workflow_parts_and_descriptions() {
    let w = workflow();
    assert_eq!(w.name(), "mirror");
    assert_eq!(w.origin().url, "https://example.org/up");
    assert_eq!(w.origin().reference, "main");
    assert_eq!(w.destination().branch, "export");
    assert!(w.destination().tags.is_empty());
    assert_eq!(w.describe(), "workflow");
    assert_eq!(w.origin().describe(), "origin TODO");
    assert_eq!(w.destination().describe(), "destination TODO");
    assert_eq!(FrozenTransform {}.describe(), "transform\n");
    assert_eq!(FrozenDynamicTagCallable {}.describe(), "dynamic_tag\n");
}

#[test]
fn context_reports() {
    let c = Context::new().unwrap();
    assert_eq!(c.copy(), 3);
    assert!(c.success());
    assert!(!c.fail("broken"));
    assert_eq!(c.describe(), "transform\n");
}

#[test]
fn store_starts_empty() {
    assert!(Store::default().0.is_empty());
    assert!(Store::new().0.is_empty());
}
