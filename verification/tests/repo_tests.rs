use ez_workspaces::repo::model::{parse_owner, RepoEntry, RepoIndex, RepoMeta};
use ez_workspaces::repo::set_repo_labels;

#[test]
fn parse_owner_https() {
    assert_eq!(
        parse_owner("https://github.com/rust-lang/rust.git"),
        Some("rust-lang".to_string())
    );
    assert_eq!(
        parse_owner("https://github.com/ofirg/ez-workspaces"),
        Some("ofirg".to_string())
    );
}

#[test]
fn parse_owner_ssh_shorthand() {
    assert_eq!(
        parse_owner("git@github.com:ofirg/ez-workspaces.git"),
        Some("ofirg".to_string())
    );
    assert_eq!(
        parse_owner("git@gitlab.com:group/sub/project.git"),
        Some("group".to_string())
    );
}

#[test]
fn parse_owner_ssh_scheme() {
    assert_eq!(
        parse_owner("ssh://git@github.com/ofirg/ez-workspaces.git"),
        Some("ofirg".to_string())
    );
}

#[test]
fn parse_owner_git_scheme() {
    assert_eq!(
        parse_owner("git://github.com/ofirg/ez-workspaces"),
        Some("ofirg".to_string())
    );
}

#[test]
fn parse_owner_rejects_empty_or_invalid() {
    assert_eq!(parse_owner(""), None);
    assert_eq!(parse_owner("not-a-url"), None);
    // Missing repo segment
    assert_eq!(parse_owner("https://github.com/owner"), None);
    assert_eq!(parse_owner("git@github.com:"), None);
}

#[test]
fn parse_owner_trims_and_drops_user() {
    assert_eq!(
        parse_owner("  http://user@host.example/team/proj  "),
        Some("team".to_string())
    );
}

fn entry(id: &str, path: &str, name: &str) -> RepoEntry {
    RepoEntry {
        id: id.to_string(),
        path: path.to_string(),
        name: name.to_string(),
        registered_at: "2024-01-01T00:00:00Z".to_string(),
        is_git: true,
    }
}

#[test]
fn index_lookups_and_removal() {
    let mut index = RepoIndex {
        repos: vec![entry("a-one", "/w/a/one", "one"), entry("b-two", "/w/b/two", "two")],
    };
    assert_eq!(index.find_by_path("/w/b//two/").unwrap().id, "b-two");
    assert_eq!(index.find_by_name_or_id("one").unwrap().id, "a-one");
    assert_eq!(index.find_by_name_or_id("b-two").unwrap().name, "two");
    assert!(index.find_by_name_or_id("three").is_none());
    let removed = index.remove_by_id("a-one").unwrap();
    assert_eq!(removed.name, "one");
    assert_eq!(index.repos.len(), 1);
    assert!(index.remove_by_id("a-one").is_none());
}

#[test]
fn repo_labels_are_sorted_and_unique() {
    let mut meta = RepoMeta {
        remote_url: None,
        default_branch: Some("main".to_string()),
        labels: vec!["work".to_string(), "alpha".to_string(), "work".to_string()],
        plugin_state: Vec::new(),
        last_accessed: None,
    };
    let add = vec![" zeta ".to_string(), "  ".to_string(), "alpha".to_string()];
    let remove = vec!["work".to_string()];
    let r = set_repo_labels(&mut meta, &add, &remove);
    assert_eq!(r, vec!["alpha", "zeta"]);
    assert_eq!(meta.labels, vec!["alpha", "zeta"]);
    assert_eq!(meta.default_branch.as_deref(), Some("main"));
    // The same change again changes nothing.
    let again = set_repo_labels(&mut meta, &add, &remove);
    assert_eq!(again, r);
}

#[test]
fn owner_depends_on_the_trimmed_url_only() {
    for u in ["  git@github.com:acme/tool.git ", "\thttps://github.com/acme/tool\n", " ftp://x/acme/tool "] {
        assert_eq!(parse_owner(u), parse_owner(u.trim()));
        if let Some(o) = parse_owner(u) {
            assert!(!o.is_empty() && o == o.trim() && !o.contains('/'));
        }
    }
    assert_eq!(parse_owner(" ftp://x/acme/tool "), None);
}

#[test]
fn owner_needs_a_repository_part() {
    assert_eq!(parse_owner("https://github.com/acme/"), None);
    assert_eq!(parse_owner("git@github.com:acme/ tool "), Some("acme".to_string()));
}
