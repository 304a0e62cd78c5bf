use ez_workspaces::browser::session_picker::render_for_mode;
use ez_workspaces::browser::views::order_repos;
use ez_workspaces::browser::SortMode;
use ez_workspaces::daemon::{pr_candidates, MAX_CANDIDATES};
use ez_workspaces::recency::{is_newer, latest_stamp, sort_recent_first};
use ez_workspaces::repo::model::RepoEntry;
use ez_workspaces::session::model::{Session, SessionTree};

fn session(id: &str, name: &str, parent: Option<&str>, last: Option<&str>) -> Session {
    Session {
        id: id.to_string(),
        name: name.to_string(),
        parent_id: parent.map(|s| s.to_string()),
        path: None,
        env: Vec::new(),
        plugin_state: Vec::new(),
        labels: Vec::new(),
        created_at: "2024-01-01T00:00:00Z".to_string(),
        is_default: false,
        bare: false,
        last_accessed: last.map(|s| s.to_string()),
    }
}

fn entry(id: &str, is_git: bool) -> RepoEntry {
    RepoEntry {
        id: id.to_string(),
        path: format!("/w/{id}"),
        name: id.to_string(),
        registered_at: "2024-01-01T00:00:00Z".to_string(),
        is_git,
    }
}

fn s(x: &str) -> Option<String> {
    Some(x.to_string())
}

#[test]
fn newer_compares_stamps_and_puts_none_last() {
    assert!(is_newer(&s("2024-02-01"), &s("2024-01-01")));
    assert!(!is_newer(&s("2024-01-01"), &s("2024-02-01")));
    assert!(!is_newer(&s("2024-01-01"), &s("2024-01-01")));
    assert!(is_newer(&s("2024-01-01"), &None));
    assert!(!is_newer(&None, &s("2024-01-01")));
    assert!(!is_newer(&None, &None));
}

#[test]
fn sort_recent_first_is_stable_with_none_last() {
    let items = vec![
        (None, "a"),
        (s("2024-01-01"), "b"),
        (s("2024-03-01"), "c"),
        (None, "d"),
        (s("2024-01-01"), "e"),
        (s("2024-02-01"), "f"),
    ];
    let sorted: Vec<&str> = sort_recent_first(items).into_iter().map(|p| p.1).collect();
    assert_eq!(sorted, vec!["c", "f", "b", "e", "a", "d"]);
}

#[test]
fn sort_recent_first_empty() {
    let items: Vec<(Option<String>, u32)> = Vec::new();
    assert!(sort_recent_first(items).is_empty());
}

#[test]
fn latest_stamp_picks_the_most_recent() {
    assert_eq!(latest_stamp(None, &vec![]), None);
    assert_eq!(
        latest_stamp(s("2024-01-05"), &vec![None, s("2024-01-09"), s("2024-01-02")]),
        s("2024-01-09")
    );
    assert_eq!(latest_stamp(s("2024-01-05"), &vec![None, s("2024-01-01")]), s("2024-01-05"));
    assert_eq!(latest_stamp(None, &vec![None, s("2024-01-01")]), s("2024-01-01"));
}

#[test]
fn subtree_max_accessed_covers_descendants() {
    let tree = SessionTree {
        sessions: vec![
            session("1", "root", None, Some("2024-01-01T00:00:00Z")),
            session("2", "child", Some("1"), Some("2024-05-01T00:00:00Z")),
            session("3", "grandchild", Some("2"), None),
            session("4", "other", None, None),
        ],
    };
    assert_eq!(tree.subtree_max_accessed("1"), s("2024-05-01T00:00:00Z"));
    assert_eq!(tree.subtree_max_accessed("2"), s("2024-05-01T00:00:00Z"));
    assert_eq!(tree.subtree_max_accessed("3"), None);
    assert_eq!(tree.subtree_max_accessed("4"), None);
    assert_eq!(tree.subtree_max_accessed("missing"), None);
}

#[test]
fn render_tree_lru_orders_roots_by_subtree_recency() {
    let tree = SessionTree {
        sessions: vec![
            session("1", "alpha", None, None),
            session("2", "beta", None, Some("2024-01-01T00:00:00Z")),
            session("3", "beta-child", Some("2"), None),
            session("4", "gamma", None, None),
            session("5", "gamma-child", Some("4"), Some("2024-06-01T00:00:00Z")),
        ],
    };
    let names: Vec<&str> = tree.render_tree_lru().iter().map(|n| n.session.name.as_str()).collect();
    assert_eq!(names, vec!["gamma", "gamma-child", "beta", "beta-child", "alpha"]);
    let nodes = tree.render_tree_lru();
    assert_eq!(nodes[0].depth, 0);
    assert!(!nodes[0].is_last_sibling);
    assert_eq!(nodes[1].depth, 1);
    assert!(nodes[4].is_last_sibling);

    let alpha: Vec<&str> = render_for_mode(&tree, SortMode::Alpha)
        .iter()
        .map(|n| n.session.name.as_str())
        .collect();
    assert_eq!(alpha, vec!["alpha", "beta", "beta-child", "gamma", "gamma-child"]);
    let lru: Vec<&str> = render_for_mode(&tree, SortMode::Lru)
        .iter()
        .map(|n| n.session.name.as_str())
        .collect();
    assert_eq!(lru, names);
}

#[test]
fn order_repos_by_mode() {
    let stamped = || {
        vec![
            (None, entry("a", true)),
            (s("2024-01-01"), entry("b", true)),
            (s("2024-02-01"), entry("c", true)),
        ]
    };
    let ids: Vec<String> = order_repos(stamped(), SortMode::Lru).into_iter().map(|e| e.id).collect();
    assert_eq!(ids, vec!["c", "b", "a"]);
    let ids: Vec<String> = order_repos(stamped(), SortMode::Alpha).into_iter().map(|e| e.id).collect();
    assert_eq!(ids, vec!["a", "b", "c"]);
}

fn with_pr(mut s: Session) -> Session {
    s.env.push(("ez_pr_number".to_string(), "12".to_string()));
    s
}

#[test]
fn pr_candidates_pick_git_sessions_with_prs_most_recent_first() {
    let repos = vec![
        (
            entry("r1", true),
            SessionTree {
                sessions: vec![
                    with_pr(session("1", "old", None, Some("2024-01-01T00:00:00Z"))),
                    session("2", "no-pr", None, Some("2024-09-01T00:00:00Z")),
                    with_pr(session("3", "never", None, None)),
                ],
            },
        ),
        (
            entry("r2", false),
            SessionTree { sessions: vec![with_pr(session("4", "plain", None, Some("2024-12-01T00:00:00Z")))] },
        ),
        (
            entry("r3", true),
            SessionTree { sessions: vec![with_pr(session("5", "new", None, Some("2024-03-01T00:00:00Z")))] },
        ),
    ];
    let c = pr_candidates(&repos);
    let got: Vec<(&str, &str)> = c.iter().map(|c| (c.repo_id.as_str(), c.session_name.as_str())).collect();
    assert_eq!(got, vec![("r3", "new"), ("r1", "old"), ("r1", "never")]);
    assert_eq!(c[0].session_id, "5");
    assert_eq!(c[0].last_accessed.as_deref(), Some("2024-03-01T00:00:00Z"));
    assert_eq!(c[2].last_accessed, None);
}

#[test]
fn pr_candidates_are_capped() {
    let sessions: Vec<Session> = (0..30)
        .map(|i| with_pr(session(&format!("{i}"), &format!("s{i}"), None, Some(&format!("2024-01-{:02}", i + 1)))))
        .collect();
    let repos = vec![(entry("r", true), SessionTree { sessions })];
    let c = pr_candidates(&repos);
    assert_eq!(c.len(), MAX_CANDIDATES);
    assert_eq!(c[0].session_name, "s29");
    assert_eq!(c[19].session_name, "s10");
}
