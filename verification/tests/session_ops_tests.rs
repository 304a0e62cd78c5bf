use ez_workspaces::session::ops::{create_child_session, create_session};
use ez_workspaces::error::EzError;
use ez_workspaces::session::env::{env_value, set_session_env, unset_session_env};
use ez_workspaces::session::model::{Session, SessionTree};
use ez_workspaces::session::ops::{
    add_child_session, add_session, cascade_dirty, cascade_unchecked_todos, delete_session_by_id,
    ensure_default_session_with, finish_session_rename, perform_session_rename, rename_session_by_id,
    touch_session, RenamePlan,
};
use ez_workspaces::session::pr::{
    detected_pr, needs_gh_user, candidate_step, pr_lookup_path, pr_refresh_request, pr_status_stale, record_detected_pr,
    record_gh_user, record_pr_status, CandidateStep,
};
use ez_workspaces::session::register::{
    register_worktree_inline_with, register_worktree_with, unique_session_name,
};
use ez_workspaces::session::set_session_labels;

fn session(id: &str, name: &str, parent: Option<&str>) -> Session {
    Session {
        id: id.to_string(),
        name: name.to_string(),
        parent_id: parent.map(|s| s.to_string()),
        path: None,
        env: Vec::new(),
        plugin_state: Vec::new(),
        labels: Vec::new(),
        created_at: "2024-01-01T00:00:00Z".to_string(),
        is_default: false,
        bare: false,
        last_accessed: None,
    }
}

fn names(t: &SessionTree) -> Vec<String> {
    t.sessions.iter().map(|s| s.name.clone()).collect()
}

fn env_of<'a>(t: &'a SessionTree, id: &str) -> &'a Vec<(String, String)> {
    &t.sessions.iter().find(|s| s.id == id).unwrap().env
}

fn get<'a>(t: &'a SessionTree, id: &str, key: &str) -> Option<&'a str> {
    env_value(env_of(t, id), key).map(|s| s.as_str())
}

fn family() -> SessionTree {
    let mut main = session("m", "main", None);
    main.is_default = true;
    SessionTree {
        sessions: vec![
            main,
            session("a", "feature", Some("m")),
            session("b", "sub", Some("a")),
            session("c", "other", Some("m")),
        ],
    }
}

#[test]
fn env_set_and_unset() {
    let mut t = family();
    set_session_env(&mut t, "a", "EDITOR", "vim").unwrap();
    set_session_env(&mut t, "a", "EDITOR", "nvim").unwrap();
    assert_eq!(get(&t, "a", "EDITOR"), Some("nvim"));
    assert_eq!(env_of(&t, "a").len(), 1);
    assert_eq!(unset_session_env(&mut t, "a", "EDITOR").unwrap(), true);
    assert_eq!(get(&t, "a", "EDITOR"), None);
    assert_eq!(unset_session_env(&mut t, "a", "EDITOR").unwrap(), false);
}

#[test]
fn env_errors() {
    let mut t = family();
    match set_session_env(&mut t, "a", "", "x") {
        Err(EzError::Config(m)) => assert_eq!(m, "Environment variable key cannot be empty"),
        other => panic!("unexpected {other:?}"),
    }
    match set_session_env(&mut t, "zz", "K", "x") {
        Err(EzError::SessionNotFound(m)) => assert_eq!(m, "zz"),
        other => panic!("unexpected {other:?}"),
    }
    assert!(matches!(unset_session_env(&mut t, "zz", "K"), Err(EzError::SessionNotFound(_))));
}

#[test]
fn labels_on_a_session() {
    let mut t = family();
    let add = vec!["wip".to_string(), " bug ".to_string(), "wip".to_string()];
    let got = set_session_labels(&mut t, "a", &add, &[]).unwrap();
    assert_eq!(got, vec!["bug", "wip"]);
    let got = set_session_labels(&mut t, "a", &[], &["wip".to_string()]).unwrap();
    assert_eq!(got, vec!["bug"]);
    assert_eq!(t.sessions[1].labels, vec!["bug"]);
    assert!(matches!(set_session_labels(&mut t, "zz", &[], &[]), Err(EzError::SessionNotFound(_))));
}

#[test]
fn delete_refuses_children_without_force() {
    let mut t = family();
    match delete_session_by_id(&mut t, "a", false, &vec![], &vec![]) {
        Err(EzError::SessionHasChildren { name, children }) => {
            assert_eq!(name, "feature");
            assert_eq!(children, vec!["sub"]);
        }
        other => panic!("unexpected {other:?}"),
    }
    assert_eq!(t.sessions.len(), 4);
}

#[test]
fn delete_with_force_reaps_deepest_first() {
    let mut t = family();
    let reaped = delete_session_by_id(&mut t, "a", true, &vec!["b".to_string()], &vec![]).unwrap();
    let reaped: Vec<&str> = reaped.iter().map(|s| s.name.as_str()).collect();
    assert_eq!(reaped, vec!["sub", "feature"]);
    assert_eq!(names(&t), vec!["main", "other"]);
}

#[test]
fn forced_delete_leaves_no_orphans() {
    let mut t = SessionTree { sessions: vec![
        session("m", "main", None),
        session("a", "feature", None),
        session("b", "sub", Some("a")),
        session("c", "subsub", Some("b")),
        session("d", "leaf", Some("c")),
        session("e", "side", Some("a")),
        session("f", "other", Some("m")),
    ] };
    let reaped = delete_session_by_id(&mut t, "a", true, &vec![], &vec![]).unwrap();
    let reaped_ids: Vec<String> = reaped.iter().map(|s| s.id.clone()).collect();
    assert_eq!(reaped.len(), 5);
    assert_eq!(names(&t), vec!["main", "other"]);
    for s in &t.sessions {
        if let Some(p) = &s.parent_id {
            assert!(!reaped_ids.contains(p));
            assert!(t.sessions.iter().any(|x| &x.id == p));
        }
    }
}

#[test]
fn delete_refuses_dirty_and_todos() {
    let mut t = family();
    t.sessions[3].path = Some("/w/.ez/r/other".to_string());
    match delete_session_by_id(&mut t, "c", false, &vec!["c".to_string()], &vec![]) {
        Err(EzError::SessionWorktreeDirty { dirty }) => assert_eq!(dirty, vec!["other"]),
        other => panic!("unexpected {other:?}"),
    }
    match delete_session_by_id(&mut t, "c", false, &vec![], &vec!["c".to_string()]) {
        Err(EzError::SessionHasUncheckedTodos { sessions }) => assert_eq!(sessions, vec!["other"]),
        other => panic!("unexpected {other:?}"),
    }
    assert!(matches!(
        delete_session_by_id(&mut t, "zz", false, &vec![], &vec![]),
        Err(EzError::SessionNotFound(_))
    ));
    let reaped = delete_session_by_id(&mut t, "c", false, &vec![], &vec![]).unwrap();
    assert_eq!(reaped.len(), 1);
    assert_eq!(names(&t), vec!["main", "feature", "sub"]);
}

#[test]
fn cascades_list_dirty_and_todo_sessions() {
    let mut t = family();
    t.sessions[2].path = Some("/w/.ez/r/sub".to_string());
    let dirty = cascade_dirty(&t, "a", &vec!["b".to_string(), "c".to_string()]).unwrap();
    assert_eq!(dirty, vec!["sub"]);
    let todos = cascade_unchecked_todos(&t, "m", &vec!["a".to_string()]).unwrap();
    assert_eq!(todos, vec!["feature"]);
    assert!(cascade_dirty(&t, "zz", &vec![]).is_err());
}

#[test]
fn rename_checks_and_plans() {
    let mut t = family();
    assert!(matches!(
        rename_session_by_id(&mut t, "a", "other", true),
        Err(EzError::SessionAlreadyExists(_))
    ));
    assert!(matches!(
        rename_session_by_id(&mut t, "zz", "new", true),
        Err(EzError::SessionNotFound(_))
    ));
    let plan = rename_session_by_id(&mut t, "a", "renamed", true).unwrap();
    assert!(matches!(plan, RenamePlan::NoPath));
    assert_eq!(t.sessions[1].name, "renamed");

    let mut s = session("x", "old", None);
    s.path = Some("/w/.ez/repo/old".to_string());
    let plan = perform_session_rename(&mut s, "new", true);
    match &plan {
        RenamePlan::Git { worktree, target } => {
            assert_eq!(worktree, "/w/.ez/repo/old");
            assert_eq!(target, "/w/.ez/repo/new");
        }
        other => panic!("unexpected {other:?}"),
    }
    let r = finish_session_rename(&mut s, &plan, true);
    assert_eq!(r.old_path.as_deref(), Some("/w/.ez/repo/old"));
    assert_eq!(s.path.as_deref(), Some("/w/.ez/repo/new"));

    let mut bare = session("y", "b", None);
    bare.bare = true;
    assert!(matches!(perform_session_rename(&mut bare, "c", true), RenamePlan::NameOnly));
}

#[test]
fn child_sessions_and_default() {
    let mut t = SessionTree { sessions: vec![] };
    assert!(ensure_default_session_with(&mut t, "/w/repo", "d".to_string(), "T".to_string()));
    assert!(!ensure_default_session_with(&mut t, "/w/repo", "e".to_string(), "T".to_string()));
    assert_eq!(t.sessions[0].name, "main");
    assert!(t.sessions[0].is_default);
    assert_eq!(t.sessions[0].path.as_deref(), Some("/w/repo"));

    let c = add_child_session(&mut t, "/w/repo", false, "d", "notes", false, vec![], "n".to_string(), "T".to_string())
        .unwrap();
    assert_eq!(c.path.as_deref(), Some("/w/repo"));
    assert_eq!(c.parent_id.as_deref(), Some("d"));
    let g = add_child_session(&mut t, "/w/repo", true, "d", "git", false, vec![], "g".to_string(), "T".to_string())
        .unwrap();
    assert_eq!(g.path, None);
    assert!(matches!(
        add_child_session(&mut t, "/w/repo", true, "d", "git", false, vec![], "h".to_string(), "T".to_string()),
        Err(EzError::SessionAlreadyExists(_))
    ));
    match add_child_session(&mut t, "/w/repo", true, "nope", "x", false, vec![], "i".to_string(), "T".to_string()) {
        Err(EzError::SessionNotFound(m)) => assert_eq!(m, "parent session 'nope' not found"),
        other => panic!("unexpected {other:?}"),
    }
    assert_eq!(t.sessions.len(), 3);
}

#[test]
fn touch_records_last_access() {
    let mut t = family();
    assert!(touch_session(&mut t, "c", "2024-05-05T00:00:00Z"));
    assert_eq!(t.sessions[3].last_accessed.as_deref(), Some("2024-05-05T00:00:00Z"));
    assert!(!touch_session(&mut t, "zz", "2024-05-05T00:00:00Z"));
}

const T0: &str = "2024-01-01T00:00:00+00:00";
const T0_MS: i64 = 1_704_067_200_000;

#[test]
fn pr_status_staleness() {
    let none: Vec<(String, String)> = vec![];
    assert!(pr_status_stale(&none, T0_MS));
    let env = vec![("ez_pr_status_updated".to_string(), T0.to_string())];
    assert!(!pr_status_stale(&env, T0_MS + 299_999));
    assert!(pr_status_stale(&env, T0_MS + 300_000));
    let bad = vec![("ez_pr_status_updated".to_string(), "yesterday".to_string())];
    assert!(pr_status_stale(&bad, T0_MS));
}

#[test]
fn pr_refresh_requests() {
    let mut t = family();
    assert_eq!(pr_refresh_request(&t, "a", T0_MS), None);
    set_session_env(&mut t, "a", "ez_pr_number", "42").unwrap();
    assert_eq!(pr_refresh_request(&t, "a", T0_MS).as_deref(), Some("42"));
    set_session_env(&mut t, "a", "ez_pr_url", "https://github.com/o/r/pull/42").unwrap();
    assert_eq!(pr_refresh_request(&t, "a", T0_MS).as_deref(), Some("https://github.com/o/r/pull/42"));
    assert!(record_pr_status(&mut t, "a", "MERGED", T0));
    assert_eq!(get(&t, "a", "ez_pr_status"), Some("merged"));
    assert_eq!(pr_refresh_request(&t, "a", T0_MS + 1000), None);
    assert!(pr_refresh_request(&t, "a", T0_MS + 600_000).is_some());
    assert_eq!(pr_refresh_request(&t, "zz", T0_MS), None);
    assert!(!record_pr_status(&mut t, "zz", "OPEN", T0));
}

#[test]
fn detected_pr_is_recorded() {
    let mut t = family();
    assert!(!record_detected_pr(&mut t, "a", Some(7), None, None, T0, None));
    assert_eq!(get(&t, "a", "ez_pr_number"), None);
    assert!(record_detected_pr(&mut t, "a", Some(7), Some("https://x/pull/7"), None, T0, Some("octo")));
    assert_eq!(get(&t, "a", "ez_pr_number"), Some("7"));
    assert_eq!(get(&t, "a", "ez_pr_url"), Some("https://x/pull/7"));
    assert_eq!(get(&t, "a", "ez_pr_status"), Some("open"));
    assert_eq!(get(&t, "a", "ez_pr_status_updated"), Some(T0));
    assert_eq!(get(&t, "a", "ez_pr_gh_user"), Some("octo"));
}

#[test]
fn pr_lookup_wants_a_plain_worktree_session() {
    let mut t = family();
    t.sessions[1].path = Some("/w/.ez/r/feature".to_string());
    assert_eq!(pr_lookup_path(&t, "a", true).as_deref(), Some("/w/.ez/r/feature"));
    assert_eq!(pr_lookup_path(&t, "a", false), None);
    assert_eq!(pr_lookup_path(&t, "b", true), None);
    t.sessions[0].path = Some("/w/r".to_string());
    assert_eq!(pr_lookup_path(&t, "m", true), None);
    set_session_env(&mut t, "a", "ez_pr_number", "1").unwrap();
    assert_eq!(pr_lookup_path(&t, "a", true), None);
}

#[test]
fn candidate_steps() {
    let mut t = family();
    assert_eq!(candidate_step(&t, "zz", "me"), CandidateStep::Missing);
    assert_eq!(candidate_step(&t, "a", "me"), CandidateStep::Refresh { backfill: true });
    assert!(record_gh_user(&mut t, "a", "me"));
    assert_eq!(candidate_step(&t, "a", "me"), CandidateStep::Refresh { backfill: false });
    assert_eq!(candidate_step(&t, "a", "you"), CandidateStep::OtherUser);
    assert!(!record_gh_user(&mut t, "zz", "me"));
}

#[test]
fn register_worktree_names_and_checks() {
    let mut t = family();
    let canon = vec![None, Some("/w/.ez/r/feature".to_string())];
    match register_worktree_with(&mut t, Some("  "), None, "/w/x", &canon, None, "i".into(), "T".into()) {
        Err(EzError::Config(m)) => assert_eq!(m, "session name cannot be empty when registering a worktree"),
        other => panic!("unexpected {other:?}"),
    }
    match register_worktree_with(&mut t, None, None, "/w/x", &canon, None, "i".into(), "T".into()) {
        Err(EzError::Config(m)) => {
            assert_eq!(m, "could not detect a branch for this worktree; pass --name explicitly")
        }
        other => panic!("unexpected {other:?}"),
    }
    assert!(matches!(
        register_worktree_with(&mut t, None, Some("sub"), "/w/x", &canon, None, "i".into(), "T".into()),
        Err(EzError::SessionAlreadyExists(_))
    ));
    match register_worktree_with(&mut t, Some("new"), None, "/w/.ez/r/feature", &canon, None, "i".into(), "T".into()) {
        Err(EzError::Config(m)) => {
            assert_eq!(m, "worktree '/w/.ez/r/feature' is already registered as session 'feature'")
        }
        other => panic!("unexpected {other:?}"),
    }
    assert!(matches!(
        register_worktree_with(&mut t, Some("new"), None, "/w/x", &canon, Some("nope"), "i".into(), "T".into()),
        Err(EzError::SessionNotFound(_))
    ));
    assert_eq!(t.sessions.len(), 4);
    let name =
        register_worktree_with(&mut t, Some(" fix "), Some("fix-branch"), "/w/x", &canon, None, "i".into(), "T".into())
            .unwrap();
    assert_eq!(name, "fix");
    let s = t.sessions.last().unwrap();
    assert_eq!(s.parent_id.as_deref(), Some("m"));
    assert_eq!(s.path.as_deref(), Some("/w/x"));
    assert_eq!(
        s.plugin_state,
        vec![
            ("worktree_path".to_string(), "\"/w/x\"".to_string()),
            ("branch".to_string(), "\"fix-branch\"".to_string()),
        ]
    );
}

#[test]
fn unique_names_get_the_first_free_suffix() {
    let t = SessionTree {
        sessions: vec![session("1", "main", None), session("2", "main-2", None), session("3", "main-4", None)],
    };
    assert_eq!(unique_session_name(&t, "topic"), "topic");
    assert_eq!(unique_session_name(&t, "main"), "main-3");
}

#[test]
fn inline_registration_uses_branch_or_directory() {
    let mut t = family();
    let s = register_worktree_inline_with(&mut t, "/w/.ez/r/feature", None, "i1".into(), "T".into());
    assert_eq!(s.name, "feature-2");
    assert_eq!(s.parent_id.as_deref(), Some("m"));
    let s = register_worktree_inline_with(&mut t, "/w/.ez/r/dir", Some("topic"), "i2".into(), "T".into());
    assert_eq!(s.name, "topic");
    assert_eq!(s.plugin_state.len(), 2);
    assert_eq!(t.sessions.len(), 6);
    let s = register_worktree_inline_with(&mut t, "/", None, "i3".into(), "T".into());
    assert_eq!(s.name, "worktree");
}

#[test]
fn sessions_at_the_root_or_under_a_parent() {
    let mut t = SessionTree { sessions: vec![] };
    let s = add_session(&mut t, "/w/r", true, None, "top", false, vec![], "1".into(), "T".into()).unwrap();
    assert_eq!(s.parent_id, None);
    assert_eq!(s.path, None);
    let c = add_session(&mut t, "/w/r", false, Some("1"), "c", true, vec![], "2".into(), "T".into()).unwrap();
    assert_eq!(c.path, None);
    assert_eq!(c.parent_id.as_deref(), Some("1"));
    let d = add_session(&mut t, "/w/r", false, Some("1"), "d", false, vec![], "3".into(), "T".into()).unwrap();
    assert_eq!(d.path.as_deref(), Some("/w/r"));
    assert!(matches!(
        add_session(&mut t, "/w/r", true, Some("9"), "e", false, vec![], "4".into(), "T".into()),
        Err(EzError::SessionNotFound(_))
    ));
    assert_eq!(t.sessions.len(), 3);
}

#[test]
fn gh_pr_list_answers() {
    let out = br#"[{"number": 42, "url": "https://github.com/o/r/pull/42", "state": "OPEN"}]"#;
    let pr = detected_pr(out).unwrap();
    assert_eq!(pr.number, Some(42));
    assert_eq!(pr.url.as_deref(), Some("https://github.com/o/r/pull/42"));
    assert_eq!(pr.state.as_deref(), Some("OPEN"));
    assert!(needs_gh_user(&pr));
    assert!(detected_pr(b"[]").is_none());
    assert!(detected_pr(b"not json").is_none());
    let partial = detected_pr(br#"[{"number": "x", "url": "u"}]"#).unwrap();
    assert_eq!(partial.number, None);
    assert!(!needs_gh_user(&partial));
}

#[test]
fn rename_by_id_plans_the_worktree_move() {
    let mut t = family();
    t.sessions[1].path = Some("/w/.ez/r/feature".to_string());
    match rename_session_by_id(&mut t, "a", "better", true).unwrap() {
        RenamePlan::Git { worktree, target } => {
            assert_eq!(worktree, "/w/.ez/r/feature");
            assert_eq!(target, "/w/.ez/r/better");
        }
        other => panic!("unexpected {other:?}"),
    }
    assert!(matches!(rename_session_by_id(&mut t, "a", "best", false).unwrap(), RenamePlan::NameOnly));
}

#[test]
fn created_sessions_in_a_plain_directory_are_bookmarks() {
    let mut t = SessionTree { sessions: vec![session("m", "main", None)] };
    let c = create_session(&mut t, "/notes", false, None, "top", false, vec![]).unwrap();
    assert_eq!(c.path.as_deref(), Some("/notes"));
    assert!(c.labels.is_empty() && c.plugin_state.is_empty() && c.last_accessed.is_none());
    let g = create_session(&mut t, "/repo", true, None, "gitted", false, vec![]).unwrap();
    assert_eq!(g.path, None);
    let k = create_child_session(&mut t, "/notes", false, "m", "kid", false, vec![]).unwrap();
    assert_eq!(k.path.as_deref(), Some("/notes"));
    assert_eq!(k.parent_id.as_deref(), Some("m"));
    match create_child_session(&mut t, "/notes", false, "nope", "kid2", false, vec![]) {
        Err(EzError::SessionNotFound(m)) => assert_eq!(m, "parent session 'nope' not found"),
        other => panic!("unexpected {other:?}"),
    }
    assert_eq!(t.sessions.len(), 4);
}
