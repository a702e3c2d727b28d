use agent_skills::repo::{parse_git_remote, parse_owner_repo, repo_from_remote, resolve_repo, RepoError};

#[test]
fn parses_ssh_remote() {
    let (o, r) = parse_git_remote("git@github.com:46ki75/skills.git").unwrap();
    assert_eq!((o.as_str(), r.as_str()), ("46ki75", "skills"));
}

#[test]
fn parses_https_remote() {
    let (o, r) = parse_git_remote("https://github.com/46ki75/skills").unwrap();
    assert_eq!((o.as_str(), r.as_str()), ("46ki75", "skills"));
}

#[test]
fn ignores_trailing_url_segments() {
    let (o, r) = parse_git_remote("https://github.com/46ki75/skills/tree/main").unwrap();
    assert_eq!((o.as_str(), r.as_str()), ("46ki75", "skills"));
}

#[test]
fn parses_http_and_ssh_scheme_remotes() {
    let (o, r) = parse_git_remote("  http://github.com/a/b.git\n").unwrap();
    assert_eq!((o.as_str(), r.as_str()), ("a", "b"));
    let (o, r) = parse_git_remote("ssh://git@github.com/org/repo").unwrap();
    assert_eq!((o.as_str(), r.as_str()), ("org", "repo"));
}

#[test]
fn unrecognized_remote_is_an_error() {
    let err = parse_git_remote("https://gitlab.com/a/b").unwrap_err();
    assert!(matches!(&err, RepoError::UnrecognizedRemote(u) if u == "https://gitlab.com/a/b"));
    assert_eq!(err.message(), "unrecognized git remote URL: https://gitlab.com/a/b");
}

#[test]
fn owner_repo_normalisation() {
    let (o, r) = parse_owner_repo(" //owner//name.git.git ").unwrap();
    assert_eq!((o.as_str(), r.as_str()), ("owner", "name"));
    let (o, r) = parse_owner_repo("a/b/c").unwrap();
    assert_eq!((o.as_str(), r.as_str()), ("a", "b"));
}

#[test]
fn owner_repo_needs_two_segments() {
    let err = parse_owner_repo(" /solo.git ").unwrap_err();
    assert!(matches!(&err, RepoError::ExpectedOwnerName(s) if s == "solo"));
    assert_eq!(err.message(), "expected 'owner/name', got \"solo\"");
    assert!(parse_owner_repo("").is_err());
}

#[test]
fn repo_resolution_order() {
    let r = resolve_repo(Some("x/y"), Some("p/q")).unwrap().unwrap();
    assert_eq!((r.0.as_str(), r.1.as_str()), ("x", "y"));
    let r = resolve_repo(None, Some("p/q")).unwrap().unwrap();
    assert_eq!((r.0.as_str(), r.1.as_str()), ("p", "q"));
    assert!(resolve_repo(None, None).is_none());
    assert!(matches!(repo_from_remote(false, "git@github.com:a/b"), Err(RepoError::Undetermined)));
    let r = repo_from_remote(true, "git@github.com:a/b.git\n").unwrap();
    assert_eq!((r.0.as_str(), r.1.as_str()), ("a", "b"));
}
