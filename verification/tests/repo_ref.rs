use ghreposync::sync::RepoRef;

#[test]
fn parses_owner_and_repo() {
    let r = RepoRef::parse("org/template").ok().unwrap();
    assert_eq!(r.owner, "org");
    assert_eq!(r.repo, "template");
}

#[test]
fn splits_at_first_slash_only() {
    let r = RepoRef::parse("a/b/c").ok().unwrap();
    assert_eq!(r.owner, "a");
    assert_eq!(r.repo, "b/c");
}

#[test]
fn rejects_missing_slash() {
    let e = RepoRef::parse("orgtemplate").err().unwrap();
    assert_eq!(e.input, "orgtemplate");
    assert_eq!(e.message(), "Invalid repo 'orgtemplate': expected 'owner/repo'");
}

#[test]
fn rejects_empty_owner() {
    assert!(RepoRef::parse("/repo").is_err());
}

#[test]
fn rejects_empty_repo() {
    assert!(RepoRef::parse("owner/").is_err());
}

#[test]
fn rejects_empty_text() {
    assert!(RepoRef::parse("").is_err());
    assert!(RepoRef::parse("/").is_err());
}

#[test]
fn full_name_joins_with_slash() {
    let r = RepoRef { owner: "org".to_string(), repo: "my-repo".to_string() };
    assert_eq!(r.full_name(), "org/my-repo");
}

#[test]
fn full_name_parses_back() {
    let r = RepoRef { owner: "innobead".to_string(), repo: "ghreposync".to_string() };
    let back = RepoRef::parse(&r.full_name()).ok().unwrap();
    assert_eq!(back.owner, r.owner);
    assert_eq!(back.repo, r.repo);
}

#[test]
fn parse_then_full_name_gives_input() {
    let s = "org-b/x/y";
    assert_eq!(RepoRef::parse(s).ok().unwrap().full_name(), s);
}

#[test]
fn non_ascii_names() {
    let r = RepoRef::parse("ünï/cödé").ok().unwrap();
    assert_eq!(r.owner, "ünï");
    assert_eq!(r.repo, "cödé");
}
