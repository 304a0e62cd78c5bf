use ez_workspaces::session::model::{Session, SessionTree};
use ez_workspaces::session::tree::format_session_tree_line;

fn make_session(id: &str, name: &str, parent: Option<&str>) -> Session {
    Session {
        id: id.to_string(),
        name: name.to_string(),
        parent_id: parent.map(|s| s.to_string()),
        path: None,
        env: Vec::new(),
        plugin_state: Vec::new(),
        labels: Vec::new(),
        created_at: "2024-01-01T00:00:00Z".to_string(),
        is_default: false,
        bare: false,
        last_accessed: None,
    }
}

#[test]
fn test_roots() {
    let tree = SessionTree {
        sessions: vec![
            make_session("1", "main", None),
            make_session("2", "feature", None),
            make_session("3", "sub", Some("2")),
        ],
    };
    let roots = tree.roots();
    assert_eq!(roots.len(), 2);
}

#[test]
fn test_children() {
    let tree = SessionTree {
        sessions: vec![
            make_session("1", "main", None),
            make_session("2", "feature", None),
            make_session("3", "sub-a", Some("2")),
            make_session("4", "sub-b", Some("2")),
        ],
    };
    let children = tree.children("2");
    assert_eq!(children.len(), 2);
}

#[test]
fn test_descendants() {
    let tree = SessionTree {
        sessions: vec![
            make_session("1", "root", None),
            make_session("2", "child", Some("1")),
            make_session("3", "grandchild", Some("2")),
        ],
    };
    let desc = tree.descendants("1");
    assert_eq!(desc.len(), 2);
}

#[test]
fn test_render_tree() {
    let tree = SessionTree {
        sessions: vec![
            make_session("1", "main", None),
            make_session("2", "feature", None),
            make_session("3", "sub", Some("2")),
        ],
    };
    let rendered = tree.render_tree();
    assert_eq!(rendered.len(), 3);
    assert_eq!(rendered[0].depth, 0); // main at depth 0
    assert_eq!(rendered[1].depth, 0); // feature at depth 0
    assert_eq!(rendered[2].depth, 1); // sub at depth 1
}

#[test]
fn test_add_duplicate_name() {
    let mut tree = SessionTree::new();
    tree.add(make_session("1", "main", None)).unwrap();
    let result = tree.add(make_session("2", "main", None));
    assert!(result.is_err());
}

#[test]
fn test_add_invalid_parent() {
    let mut tree = SessionTree::new();
    let result = tree.add(make_session("1", "child", Some("nonexistent")));
    assert!(result.is_err());
}

#[test]
fn test_remove() {
    let mut tree = SessionTree::new();
    tree.add(make_session("1", "main", None)).unwrap();
    let removed = tree.remove("1").unwrap();
    assert_eq!(removed.name, "main");
    assert!(tree.sessions.is_empty());
}

#[test]
fn test_tree_glyphs_single_child() {
    let tree = SessionTree {
        sessions: vec![
            make_session("1", "root", None),
            make_session("2", "child", Some("1")),
        ],
    };
    let rendered = tree.render_tree();
    assert_eq!(rendered.len(), 2);

    assert_eq!(format_session_tree_line(&rendered[0]), "");
    assert!(rendered[0].is_last_sibling);

    assert_eq!(format_session_tree_line(&rendered[1]), "└── ");
    assert!(rendered[1].is_last_sibling);
}

#[test]
fn test_tree_glyphs_multiple_siblings() {
    let tree = SessionTree {
        sessions: vec![
            make_session("1", "root", None),
            make_session("2", "child-a", Some("1")),
            make_session("3", "child-b", Some("1")),
            make_session("4", "child-c", Some("1")),
        ],
    };
    let rendered = tree.render_tree();
    assert_eq!(rendered.len(), 4);

    assert_eq!(format_session_tree_line(&rendered[0]), "");
    assert_eq!(format_session_tree_line(&rendered[1]), "├── ");
    assert!(!rendered[1].is_last_sibling);
    assert_eq!(format_session_tree_line(&rendered[2]), "├── ");
    assert!(!rendered[2].is_last_sibling);
    assert_eq!(format_session_tree_line(&rendered[3]), "└── ");
    assert!(rendered[3].is_last_sibling);
}

#[test]
fn test_tree_glyphs_deep_nesting() {
    let tree = SessionTree {
        sessions: vec![
            make_session("1", "root", None),
            make_session("2", "a", Some("1")),
            make_session("3", "b", Some("2")),
            make_session("4", "c", Some("3")),
            make_session("5", "d", Some("1")),
        ],
    };
    let rendered = tree.render_tree();
    assert_eq!(rendered.len(), 5);

    let lines: Vec<String> = rendered
        .iter()
        .map(|n| format_session_tree_line(n))
        .collect();
    assert_eq!(lines[0], "");
    assert_eq!(lines[1], "├── ");
    assert_eq!(lines[2], "│   └── ");
    assert_eq!(lines[3], "│       └── ");
    assert_eq!(lines[4], "└── ");
}

#[test]
fn test_tree_glyphs_multiple_roots() {
    let tree = SessionTree {
        sessions: vec![
            make_session("1", "main", None),
            make_session("2", "feature", None),
            make_session("3", "sub", Some("2")),
        ],
    };
    let rendered = tree.render_tree();
    assert_eq!(rendered.len(), 3);

    assert_eq!(format_session_tree_line(&rendered[0]), "");
    assert!(!rendered[0].is_last_sibling);
    assert_eq!(format_session_tree_line(&rendered[1]), "");
    assert!(rendered[1].is_last_sibling);
    assert_eq!(format_session_tree_line(&rendered[2]), "└── ");
    assert!(rendered[2].is_last_sibling);
}

#[test]
fn test_tree_glyphs_empty_levels() {
    let tree = SessionTree {
        sessions: vec![
            make_session("1", "root", None),
            make_session("2", "a", Some("1")),
            make_session("3", "b", Some("1")),
            make_session("4", "c", Some("3")),
        ],
    };
    let rendered = tree.render_tree();
    assert_eq!(rendered.len(), 4);

    let lines: Vec<String> = rendered
        .iter()
        .map(|n| format_session_tree_line(n))
        .collect();
    assert_eq!(lines[0], "");
    assert_eq!(lines[1], "├── ");
    assert_eq!(lines[2], "└── ");
    assert_eq!(lines[3], "    └── ");
}

#[test]
fn ancestors_and_lookups() {
    let tree = SessionTree {
        sessions: vec![
            make_session("1", "root", None),
            make_session("2", "a", Some("1")),
            make_session("3", "b", Some("2")),
        ],
    };
    let anc: Vec<&str> = tree.ancestors("3").iter().map(|s| s.name.as_str()).collect();
    assert_eq!(anc, vec!["a", "root"]);
    assert_eq!(tree.find_by_name("b").unwrap().id, "3");
    assert_eq!(tree.find_by_id("2").unwrap().name, "a");
    assert!(tree.find_default().is_none());
}

#[test]
fn add_then_remove_restores_tree() {
    let mut tree = SessionTree::new();
    tree.add(make_session("1", "main", None)).unwrap();
    tree.add(make_session("2", "feat", Some("1"))).unwrap();
    assert_eq!(tree.find_by_name("feat").unwrap().id, "2");
    tree.remove("2").unwrap();
    assert_eq!(tree.sessions.len(), 1);
    assert_eq!(tree.sessions[0].name, "main");
    assert!(tree.remove("2").is_err());
}
