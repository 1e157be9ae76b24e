use copybara::paths::{cache_path, is_git_metadata};

fn parts(v: &[&str]) -> Vec<Vec<u8>> {
    v.iter().map(|s| s.as_bytes().to_vec()).collect()
}

#[test]
fn cache_path_replaces_slashes() {
    assert_eq!(
        cache_path("https://github.com/org/repo", "main"),
        "cache/https:--github.com-org-repo-main"
    );
    assert_eq!(cache_path("a", "feature/x"), "cache/a-feature-x");
    assert_eq!(cache_path("", ""), "cache/-");
}

#[test]
fn git_metadata_is_recognised_by_components() {
    let source = parts(&["cache", "repo"]);
    assert!(is_git_metadata(&source, &parts(&["cache", "repo", ".git"])));
    assert!(is_git_metadata(&source, &parts(&["cache", "repo", ".git", "HEAD"])));
    assert!(!is_git_metadata(&source, &parts(&["cache", "repo", ".gitignore"])));
    assert!(!is_git_metadata(&source, &parts(&["cache", "repo", "src"])));
    assert!(!is_git_metadata(&source, &parts(&["cache", "repo"])));
    assert!(!is_git_metadata(&source, &parts(&["cache", "other", ".git"])));
    let raw = vec![b"cache".to_vec(), vec![0xff, 0x61]];
    let mut inside = raw.clone();
    inside.push(b".git".to_vec());
    assert!(is_git_metadata(&raw, &inside));
    let other = vec![b"cache".to_vec(), vec![0xfe, 0x61], b".git".to_vec()];
    assert!(!is_git_metadata(&raw, &other));
}
