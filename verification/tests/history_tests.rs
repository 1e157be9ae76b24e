use copybara::history::{
    find_last_migrated_commit_sha, migrated_commit_message, migrated_rev_in, revision_range,
};
use copybara::error::WorkflowError;

fn some(s: &str) -> Option<String> {
    Some(s.to_string())
}

#[test]
fn migrated_message_appends_trailer_line() {
    assert_eq!(
        migrated_commit_message("Fix the build\n", "0123abcd"),
        "Fix the build\n\nGitOrigin-RevId: 0123abcd"
    );
    assert_eq!(migrated_commit_message("", "x"), "\nGitOrigin-RevId: x");
}

#[test]
fn revision_range_ends_at_head() {
    assert_eq!(revision_range("deadbeef"), "deadbeef..HEAD");
    assert_eq!(revision_range(""), "..HEAD");
}

#[test]
fn migrated_rev_takes_first_matching_trailer() {
    let trailers = vec![
        ("Signed-off-by".to_string(), "A <a@x>".to_string()),
        ("GitOrigin-RevId".to_string(), "first".to_string()),
        ("GitOrigin-RevId".to_string(), "second".to_string()),
    ];
    assert_eq!(migrated_rev_in(&trailers), Some("first".to_string()));
    let none = vec![("Reviewed-by".to_string(), "B".to_string())];
    assert_eq!(migrated_rev_in(&none), None);
    assert_eq!(migrated_rev_in(&Vec::new()), None);
}

#[test]
fn finds_newest_recorded_revision() {
    let history = vec![
        some("Unrelated change\n"),
        None,
        some("Imported\n\nGitOrigin-RevId: abc123\n"),
        some("Older import\n\nGitOrigin-RevId: 999\n"),
    ];
    match find_last_migrated_commit_sha(&history) {
        Ok(found) => assert_eq!(found, Some("abc123".to_string())),
        Err(e) => panic!("unexpected error {:?}", e),
    }
}

#[test]
fn finds_nothing_without_trailer() {
    let history = vec![some("One\n"), some("Two\n\nSigned-off-by: A <a@b>\n"), None];
    assert_eq!(find_last_migrated_commit_sha(&history).ok(), Some(None));
    assert_eq!(find_last_migrated_commit_sha(&Vec::new()).ok(), Some(None));
}

#[test]
fn reads_back_written_message() {
    let message = migrated_commit_message("Add feature\n", "fedcba9876");
    let history = vec![Some(message)];
    assert_eq!(
        find_last_migrated_commit_sha(&history).ok(),
        Some(Some("fedcba9876".to_string()))
    );
}

#[test]
fn message_with_nul_is_an_error() {
    let history = vec![some("bad\0message\n\nGitOrigin-RevId: 1\n")];
    assert!(matches!(find_last_migrated_commit_sha(&history), Err(WorkflowError::Trailers(_))));
}

#[test]
fn error_after_match_is_not_reached() {
    let history = vec![some("ok\n\nGitOrigin-RevId: 7\n"), some("bad\0")];
    assert_eq!(find_last_migrated_commit_sha(&history).ok(), Some(Some("7".to_string())));
}
