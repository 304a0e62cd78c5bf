use ez_workspaces::session::from_dirty::{stash_pop_after, StashPop};
use ez_workspaces::daemon::{candidate_outcome, cycle_counts, ProcessOutcome};
use ez_workspaces::session::pr::CandidateStep;
use ez_workspaces::browser::groups::{count_text, group_by_key, owner_for_repo};
use ez_workspaces::browser::session_picker::{
    classify_session_key, delete_prompt, rename_wanted, session_expect_keys, sort_header, target_dir,
    SessionKeyAction,
};
use ez_workspaces::browser::views::{match_view_switch, view_switch_keys, ViewMode};
use ez_workspaces::browser::selector::StageOutcome;
use ez_workspaces::config::model::{EzConfig, KeybindsConfig};
use ez_workspaces::error::EzError;
use ez_workspaces::labels::apply_label_changes;
use ez_workspaces::plugin::model::{PluginBind, PluginView};
use ez_workspaces::plugin::{
    collect_plugin_binds, collect_plugin_views, disable_plugin, enable_plugin, find_plugin_view, EnableOutcome,
    LoadedPlugin,
};
use ez_workspaces::repo::model::RepoEntry;
use ez_workspaces::session::from_dirty::{from_dirty_parent, from_dirty_worktree, require_changes, stash_message, start_point_env};
use ez_workspaces::session::model::{Session, SessionTree};
use ez_workspaces::session::name_builder::{
    build_items, full_name_outcome, github_pr_candidate, handle_pick, jira_name, join_parts, read_jira_url, JiraRead, staged_start, staged_step, stage_context,
    NamePromptResult, PickResolution, StageKind, StagedStep,
};
use ez_workspaces::session::ops::rename_session_by_id;

fn session(id: &str, name: &str, parent: Option<&str>) -> Session {
    Session {
        id: id.to_string(),
        name: name.to_string(),
        parent_id: parent.map(|s| s.to_string()),
        path: None,
        env: Vec::new(),
        plugin_state: Vec::new(),
        labels: Vec::new(),
        created_at: "T".to_string(),
        is_default: false,
        bare: false,
        last_accessed: None,
    }
}

fn plugin() -> LoadedPlugin {
    LoadedPlugin {
        name: "kv".to_string(),
        views: vec![
            PluginView { name: "envs".into(), key: "ctrl-k".into(), label: "Envs".into(), contexts: vec!["session".into()] },
            PluginView { name: "clash".into(), key: "ctrl-t".into(), label: "Clash".into(), contexts: vec!["session".into()] },
        ],
        binds: vec![PluginBind { key: "alt-k".into(), name: "open".into(), label: "Open KV".into(), contexts: vec!["session".into()] }],
    }
}

#[test]
fn name_builder_picks_and_joins() {
    assert!(matches!(handle_pick(StageKind::Choice, "  feat "), PickResolution::Use(s) if s == "feat"));
    assert!(matches!(handle_pick(StageKind::Choice, "__none__"), PickResolution::Skip));
    assert!(matches!(handle_pick(StageKind::Text, "__none__"), PickResolution::Use(_)));
    assert!(matches!(handle_pick(StageKind::Text, "   "), PickResolution::Skip));
    assert_eq!(join_parts(&[Some("feat".into()), None, Some("login".into())]), "feat-login");
    let items = build_items(&vec!["a".to_string()], true);
    assert_eq!(items.len(), 2);
    assert_eq!(items[1].value, "__none__");
    assert_eq!(jira_name("PROJ-1", Some("fix".into())), "PROJ-1-fix");
    assert_eq!(jira_name("PROJ-1", Some(String::new())), "PROJ-1");
    assert!(matches!(full_name_outcome(StageOutcome::Picked(" x ".into())), Some(NamePromptResult::Done(n)) if n == "x"));
    assert!(full_name_outcome(StageOutcome::Picked("  ".into())).is_none());
    assert!(matches!(full_name_outcome(StageOutcome::Back), Some(NamePromptResult::Cancelled)));
}

#[test]
fn staged_prompt_walks_forward_and_back() {
    let mut st = staged_start(2);
    assert!(matches!(staged_step(&mut st, 2, StageKind::Choice, StageOutcome::Picked("feat".into())), StagedStep::Next));
    assert_eq!(stage_context(&st.parts, st.idx).as_deref(), Some("feat-"));
    assert!(matches!(staged_step(&mut st, 2, StageKind::Text, StageOutcome::Back), StagedStep::Next));
    assert_eq!(st.idx, 0);
    assert!(matches!(staged_step(&mut st, 2, StageKind::Choice, StageOutcome::Picked("fix".into())), StagedStep::Next));
    assert!(matches!(staged_step(&mut st, 2, StageKind::Text, StageOutcome::Picked("".into())), StagedStep::Next));
    match staged_step(&mut st, 2, StageKind::Text, StageOutcome::Picked("login".into())) {
        StagedStep::Done(n) => assert_eq!(n, "fix-login"),
        other => panic!("unexpected {other:?}"),
    }
    let mut st = staged_start(0);
    assert!(matches!(staged_step(&mut st, 0, StageKind::Text, StageOutcome::Picked(" ".into())), StagedStep::Empty));
    assert!(matches!(staged_step(&mut st, 0, StageKind::Text, StageOutcome::Cancel), StagedStep::Cancelled));
}

#[test]
fn from_dirty_pieces() {
    let mut s = session("a", "feature", None);
    assert!(matches!(from_dirty_worktree(&s), Err(EzError::Config(_))));
    s.path = Some("/w/.ez/r/feature".into());
    assert_eq!(from_dirty_worktree(&s).unwrap(), "/w/.ez/r/feature");
    assert!(require_changes(" M a.rs\n").is_ok());
    match require_changes("  \n") {
        Err(EzError::Config(m)) => assert_eq!(m, "No uncommitted changes to move"),
        other => panic!("unexpected {other:?}"),
    }
    assert_eq!(stash_message("topic"), "ez: from-dirty for topic");
    assert_eq!(start_point_env("abc123"), vec![("ez_start_point".to_string(), "abc123".to_string())]);
    let tree = SessionTree { sessions: vec![session("m", "main", None), s] };
    assert_eq!(from_dirty_parent(&tree, None, "a").unwrap(), "a");
    assert_eq!(from_dirty_parent(&tree, Some("main"), "a").unwrap(), "m");
    assert!(matches!(from_dirty_parent(&tree, Some("zz"), "a"), Err(EzError::SessionNotFound(_))));
}

#[test]
fn plugin_views_and_binds_skip_core_keys() {
    let config = EzConfig::default();
    let plugins = vec![plugin()];
    let views = collect_plugin_views("session", &config, &plugins);
    assert_eq!(views.len(), 1);
    assert_eq!(views[0].view_name, "envs");
    assert!(collect_plugin_views("repo", &config, &plugins).is_empty());
    let binds = collect_plugin_binds("session", &config, &plugins);
    assert_eq!(binds.len(), 1);
    assert_eq!(binds[0].bind_name, "open");
    assert_eq!(find_plugin_view("clash", &plugins).unwrap().plugin_name, "kv");
    assert!(find_plugin_view("nope", &plugins).is_none());
}

#[test]
fn enabling_and_disabling_plugins() {
    let mut config = EzConfig::default();
    assert!(matches!(enable_plugin(&mut config, "tmux", false), Err(EzError::PluginNotFound(_))));
    assert!(matches!(enable_plugin(&mut config, "tmux", true), Ok(EnableOutcome::Enabled)));
    assert!(matches!(enable_plugin(&mut config, "tmux", true), Ok(EnableOutcome::AlreadyEnabled)));
    assert_eq!(config.plugins.enabled, vec!["tmux"]);
    disable_plugin(&mut config, "tmux");
    assert!(config.plugins.enabled.is_empty());
}

#[test]
fn session_picker_keys() {
    let kb = KeybindsConfig::default();
    let plugins = vec![plugin()];
    let config = EzConfig::default();
    let views = collect_plugin_views("session", &config, &plugins);
    let binds = collect_plugin_binds("session", &config, &plugins);
    let keys = session_expect_keys(&kb, &views, &binds);
    assert_eq!(keys, vec!["alt-n", "alt-N", "alt-s", "alt-d", "alt-r", "alt-l", "ctrl-d", "ctrl-s", "ctrl-k", "alt-k"]);
    assert!(matches!(classify_session_key("alt-n", &kb, &views, &binds), SessionKeyAction::NewSession));
    assert!(matches!(classify_session_key("ctrl-s", &kb, &views, &binds), SessionKeyAction::SortToggle));
    assert!(matches!(classify_session_key("alt-k", &kb, &views, &binds), SessionKeyAction::PluginBind(0)));
    assert!(matches!(classify_session_key("ctrl-k", &kb, &views, &binds), SessionKeyAction::PluginView(0)));
    assert!(matches!(classify_session_key("f1", &kb, &views, &binds), SessionKeyAction::Nothing));
    assert_eq!(sort_header("LRU", "ctrl-s"), "sort: LRU (ctrl-s)");
    assert_eq!(delete_prompt("x", &vec![]), "Delete session 'x'?");
    assert_eq!(
        delete_prompt("x", &vec!["a".to_string()]),
        "Worktree(s) [\"a\"] have uncommitted changes. Delete anyway?"
    );
    assert!(rename_wanted("a", "b"));
    assert!(!rename_wanted("a", "a"));
    let mut s = session("a", "x", None);
    assert_eq!(target_dir(&s, "/w/r"), "/w/r");
    s.path = Some("/w/.ez/r/x".into());
    assert_eq!(target_dir(&s, "/w/r"), "/w/.ez/r/x");
}

#[test]
fn view_switching() {
    let kb = KeybindsConfig::default();
    let none = Vec::new();
    assert_eq!(view_switch_keys(&kb, &none), vec!["ctrl-t", "ctrl-w", "ctrl-e", "ctrl-o", "ctrl-g"]);
    assert!(matches!(match_view_switch(&kb, &none, "ctrl-o"), Some(ViewMode::Owner)));
    assert!(match_view_switch(&kb, &none, "ctrl-x").is_none());
    let plugins = vec![plugin()];
    assert!(matches!(ViewMode::from_flag("REPO", &plugins), Ok(ViewMode::Repo)));
    assert!(matches!(ViewMode::from_flag("envs", &plugins), Ok(ViewMode::Plugin { .. })));
    assert!(matches!(ViewMode::from_flag("nope", &plugins), Err(EzError::Config(_))));
}

#[test]
fn grouping_and_owners() {
    let keys = vec!["b".to_string(), "a".to_string(), "b".to_string()];
    let g = group_by_key(&keys);
    assert_eq!(g, vec![("a".to_string(), vec![1]), ("b".to_string(), vec![0, 2])]);
    let e = RepoEntry {
        id: "x".into(),
        path: "/home/me/work/acme/tool".into(),
        name: "tool".into(),
        registered_at: "T".into(),
        is_git: true,
    };
    assert_eq!(owner_for_repo(&e, Some("git@github.com:octo/tool.git")).as_deref(), Some("octo"));
    assert_eq!(owner_for_repo(&e, None).as_deref(), Some("acme"));
    assert_eq!(count_text(1, "repo"), "(1 repo)");
    assert_eq!(count_text(3, "repo"), "(3 repos)");
}

#[test]
fn label_changes_are_idempotent_and_additions_win() {
    let current = vec!["a".to_string(), "b".to_string()];
    let add = vec!["c".to_string(), "b".to_string()];
    let remove = vec!["b".to_string(), "a".to_string()];
    let once = apply_label_changes(&current, &add, &remove);
    assert_eq!(once, vec!["b", "c"]);
    let twice = apply_label_changes(&once, &add, &remove);
    assert_eq!(twice, once);
}

#[test]
fn renamed_session_is_found_by_its_new_name() {
    let mut t = SessionTree { sessions: vec![session("1", "a", None), session("2", "b", None)] };
    rename_session_by_id(&mut t, "2", "c", false).unwrap();
    assert_eq!(t.find_by_name("c").unwrap().id, "2");
    assert!(t.find_by_name("b").is_none());
}

#[test]
fn names_from_links() {
    assert_eq!(github_pr_candidate(" https://github.com/octo/tool/pull/123 ").as_deref(), Some("pr123"));
    assert_eq!(github_pr_candidate("https://gitlab.com/octo/tool/merge_requests/5"), None);
    assert!(matches!(read_jira_url("https://acme.atlassian.net/browse/PROJ-42"), JiraRead::Ticket(t) if t == "PROJ-42"));
    assert!(matches!(read_jira_url("https://acme.atlassian.net/issues"), JiraRead::NoTicket));
    assert!(matches!(read_jira_url("   "), JiraRead::Cancelled));
}

#[test]
fn from_dirty_stash_steps() {
    assert!(matches!(stash_pop_after("/w/a", false, Some("/w/b")), StashPop::Restore(w) if w == "/w/a"));
    assert!(matches!(stash_pop_after("/w/a", true, Some("/w/b")), StashPop::Move(w) if w == "/w/b"));
    assert!(matches!(stash_pop_after("/w/a", true, None), StashPop::Keep));
}

#[test]
fn refresh_cycle_outcomes_and_counts() {
    let steps = [
        (CandidateStep::Missing, true),
        (CandidateStep::OtherUser, true),
        (CandidateStep::Refresh { backfill: true }, true),
        (CandidateStep::Refresh { backfill: false }, false),
    ];
    let outcomes: Vec<ProcessOutcome> = steps.iter().map(|(s, st)| candidate_outcome(s, *st)).collect();
    assert!(matches!(outcomes[2], ProcessOutcome::Refreshed));
    assert!(matches!(outcomes[3], ProcessOutcome::Skipped));
    assert_eq!(cycle_counts(&outcomes), (1, 3));
    assert_eq!(cycle_counts(&vec![]), (0, 0));
}

#[test]
fn enabling_a_plugin_touches_only_the_enabled_list() {
    let mut c = EzConfig::default();
    c.editor = Some("vim".to_string());
    assert!(enable_plugin(&mut c, "p", true).is_ok());
    assert_eq!(c.plugins.enabled, vec!["p".to_string()]);
    assert_eq!(c.editor.as_deref(), Some("vim"));
    assert!(enable_plugin(&mut c, "q", false).is_err());
    assert_eq!(c.plugins.enabled, vec!["p".to_string()]);
}
