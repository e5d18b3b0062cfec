use ghreposync::github::client::{
    InvalidToken, PageCursor, authorization_header, bearer_text, label_url, labels_page_url,
    labels_url, milestone_url, milestones_page_url, milestones_url,
};

#[test]
fn page_urls() {
    assert_eq!(
        labels_page_url("org", "repo", 1),
        "https://api.github.com/repos/org/repo/labels?per_page=100&page=1"
    );
    assert_eq!(
        milestones_page_url("org", "repo", 12),
        "https://api.github.com/repos/org/repo/milestones?state=all&per_page=100&page=12"
    );
}

#[test]
fn collection_urls() {
    assert_eq!(labels_url("o", "r"), "https://api.github.com/repos/o/r/labels");
    assert_eq!(milestones_url("o", "r"), "https://api.github.com/repos/o/r/milestones");
}

#[test]
fn milestone_url_uses_number() {
    assert_eq!(milestone_url("o", "r", 42), "https://api.github.com/repos/o/r/milestones/42");
}

#[test]
fn label_url_encodes_name() {
    assert_eq!(
        label_url("o", "r", "good first issue"),
        "https://api.github.com/repos/o/r/labels/good%20first%20issue"
    );
    assert_eq!(label_url("o", "r", "kind/bug"), "https://api.github.com/repos/o/r/labels/kind%2Fbug");
    assert_eq!(label_url("o", "r", "a-b_c.d~e"), "https://api.github.com/repos/o/r/labels/a-b_c.d~e");
    assert_eq!(label_url("o", "r", "é"), "https://api.github.com/repos/o/r/labels/%C3%A9");
}

#[test]
fn bearer_header() {
    assert_eq!(bearer_text("abc"), "Bearer abc");
    let v = authorization_header("ghp_123").ok().unwrap();
    assert_eq!(v.to_str().unwrap(), "Bearer ghp_123");
}

#[test]
fn token_with_control_byte_is_refused() {
    let r: Result<_, InvalidToken> = authorization_header("bad\ntoken");
    assert!(r.is_err());
    assert!(authorization_header("del\u{7f}").is_err());
    assert!(authorization_header("tab\tok").is_ok());
    assert_eq!(InvalidToken.message(), "Invalid token format");
}

#[test]
fn pages_until_empty() {
    let mut c: PageCursor<u32> = PageCursor::new();
    assert_eq!(c.next_page(), 1);
    assert!(!c.receive(vec![1, 2]));
    assert_eq!(c.next_page(), 2);
    assert!(!c.receive(vec![3]));
    assert_eq!(c.next_page(), 3);
    assert!(c.receive(vec![]));
    assert!(c.is_finished());
    assert_eq!(c.next_page(), 3);
    assert_eq!(c.into_items(), vec![1, 2, 3]);
}

#[test]
fn empty_listing() {
    let mut c: PageCursor<u32> = PageCursor::new();
    assert!(c.receive(vec![]));
    assert!(c.into_items().is_empty());
}
