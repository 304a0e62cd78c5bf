use ez_workspaces::browser::preview::{main_keybind_entries, session_keybind_entries, KeyRow, KeyTone};
use ez_workspaces::plugin::{PluginBindInfo, PluginViewInfo};
use ez_workspaces::browser::preview::{ansi_pad, center_in, fmt_key, keybind_col_width, keybind_table};
use ez_workspaces::browser::selector::{
    confirm_prompt_text, confirm_result, input_result, item_lines, select_one_result, SelectItem,
};
use ez_workspaces::config::model::{EzConfig, KeybindsConfig};
use ez_workspaces::config::{add_root, get_value, parse_u64, remove_root, set_value};
use ez_workspaces::error::EzError;
use ez_workspaces::plugin::protocol::HookResponse;
use ez_workspaces::plugin::runner::{checked_response, extract_json, no_json_found, run_failed};
use ez_workspaces::plugin::LoadedPlugin;
use ez_workspaces::repo::model::{RepoEntry, RepoIndex};
use ez_workspaces::repo::{remove_repo_in, resolve_repo_in};
use ez_workspaces::shell::shell_init;
use ez_workspaces::text::replace_str;

fn response(success: bool, error: Option<&str>) -> HookResponse {
    HookResponse {
        success,
        error: error.map(|s| s.to_string()),
        session_mutations: None,
        shell_commands: vec![],
        post_shell_commands: vec![],
        cd_target: None,
        view_items: None,
        view_prompt: None,
        view_preview_cmd: None,
    }
}

#[test]
fn extract_json_skips_preamble_and_balances_braces() {
    assert_eq!(extract_json("progress...\n{\"a\": {\"b\": 1}} trailing {x}").as_deref(), Some("{\"a\": {\"b\": 1}}"));
    assert_eq!(extract_json("{}").as_deref(), Some("{}"));
    assert_eq!(extract_json("no json here"), None);
    assert_eq!(extract_json("{ unbalanced"), None);
    assert_eq!(extract_json("x } { \"k\": \"v\" }").as_deref(), Some("{ \"k\": \"v\" }"));
}

#[test]
fn plugin_failures_are_reported() {
    match run_failed("git-worktree", "exit status: 1", " out \n", "") {
        EzError::PluginFailed(p, d) => {
            assert_eq!(p, "git-worktree");
            assert_eq!(d, "exited with status exit status: 1\n  stdout: out");
        }
        other => panic!("unexpected {other:?}"),
    }
    match run_failed("p", "exit status: 2", "", "boom\n") {
        EzError::PluginFailed(_, d) => assert_eq!(d, "exited with status exit status: 2\n  stderr: boom"),
        other => panic!("unexpected {other:?}"),
    }
    match no_json_found("p", "  hello \n") {
        EzError::PluginFailed(p, d) => {
            assert_eq!(p, "p");
            assert_eq!(d, "no JSON found in stdout:\n  hello");
        }
        other => panic!("unexpected {other:?}"),
    }
    match checked_response("p", response(false, Some("nope"))) {
        Err(EzError::PluginFailed(p, d)) => {
            assert_eq!(p, "p");
            assert_eq!(d, "nope");
        }
        other => panic!("unexpected {other:?}"),
    }
    assert!(checked_response("p", response(false, None)).is_ok());
    assert!(checked_response("p", response(true, Some("ignored"))).unwrap().success);
}

#[test]
fn keys_are_shown_capitalised() {
    assert_eq!(fmt_key("alt-n"), "Alt-n");
    assert_eq!(fmt_key("ctrl-alt-x"), "Ctrl-Alt-x");
    assert_eq!(fmt_key("shift-tab"), "Shift-tab");
    assert_eq!(fmt_key("enter"), "enter");
    assert_eq!(replace_str("aaa", "aa", "b"), "ba");
}

#[test]
fn padding_and_centering() {
    assert_eq!(ansi_pad("ab", 5), "ab   ");
    assert_eq!(ansi_pad("abcdef", 3), "abcdef");
    assert_eq!(ansi_pad("\u{1b}[1mab\u{1b}[0m", 4), "\u{1b}[1mab\u{1b}[0m  ");
    assert_eq!(center_in("ab", 7), "  ab");
    assert_eq!(center_in("abcdefgh", 7), "abcdefgh");
}

#[test]
fn keybind_table_layout() {
    let left = vec![
        ("Enter".to_string(), "Enter session".to_string()),
        ("Alt-n".to_string(), "New".to_string()),
    ];
    let right = vec![("Esc".to_string(), "Go back".to_string())];
    assert_eq!(keybind_col_width(&left), 2 + 8 + 1 + 13 + 2);
    assert_eq!(keybind_col_width(&vec![]), 22);
    let t = keybind_table("Session", "Menu", "|", &left, &right);
    assert_eq!(t.rule_width, 26);
    assert_eq!(t.header, format!("{:<26}|{}", format!("{}Session", " ".repeat(9)), format!("{}Menu", " ".repeat(11))));
    assert_eq!(t.rows.len(), 2);
    assert_eq!(t.rows[0], format!("{:<26}| Esc      Go back", "  Enter    Enter session"));
    assert_eq!(t.rows[1], format!("{:<26}|", "  Alt-n    New"));
}

fn entry(id: &str, path: &str) -> RepoEntry {
    RepoEntry {
        id: id.to_string(),
        path: path.to_string(),
        name: format!("{id}-name"),
        registered_at: "T".to_string(),
        is_git: true,
    }
}

#[test]
fn resolve_and_remove_repos() {
    let mut index = RepoIndex { repos: vec![entry("a", "/w/a"), entry("b", "/w/b")] };
    assert_eq!(resolve_repo_in(&index, Some("b-name"), "/").unwrap().id, "b");
    assert_eq!(resolve_repo_in(&index, Some("a"), "/").unwrap().id, "a");
    match resolve_repo_in(&index, Some("zz"), "/") {
        Err(EzError::RepoNotFound(m)) => assert_eq!(m, "zz"),
        other => panic!("unexpected {other:?}"),
    }
    assert_eq!(resolve_repo_in(&index, None, "/w/b/src/x").unwrap().id, "b");
    assert!(resolve_repo_in(&index, None, "/w/bb").is_err());
    match resolve_repo_in(&index, None, "/elsewhere") {
        Err(EzError::RepoNotFound(m)) => {
            assert_eq!(m, "Could not detect repo from current directory. Use --repo to specify.")
        }
        other => panic!("unexpected {other:?}"),
    }
    assert_eq!(remove_repo_in(&mut index, "a-name").unwrap().id, "a");
    assert_eq!(index.repos.len(), 1);
    assert!(matches!(remove_repo_in(&mut index, "a"), Err(EzError::RepoNotFound(_))));
    assert_eq!(index.repos.len(), 1);
}

#[test]
fn config_roots_and_values() {
    let mut c = EzConfig::default();
    assert!(add_root(&mut c, "~/work"));
    assert!(!add_root(&mut c, "~/work"));
    assert_eq!(c.workspace_roots, vec!["~/work"]);
    assert!(remove_root(&mut c, "~/other").is_err());
    assert!(remove_root(&mut c, "~/work").is_ok());
    assert!(c.workspace_roots.is_empty());

    assert_eq!(parse_u64("42"), Some(42));
    assert_eq!(parse_u64("-1"), None);
    assert_eq!(parse_u64("x"), None);
    assert_eq!(parse_u64("18446744073709551616"), None);

    let plugins: Vec<LoadedPlugin> = Vec::new();
    assert_eq!(get_value(&c, "plugin_timeout").unwrap(), "30");
    set_value(&mut c, "plugin_timeout", "45", &plugins).unwrap();
    assert_eq!(c.plugin_timeout, 45);
    assert!(set_value(&mut c, "plugin_timeout", "soon", &plugins).is_err());
    assert!(get_value(&c, "no_such_key").is_err());
}

#[test]
fn default_keybinds_follow_the_readme() {
    let kb = KeybindsConfig::default();
    assert_eq!(kb.new_session, "alt-n");
    assert_eq!(kb.new_bare_session, "alt-N");
    assert_eq!(kb.session_from_dirty, "alt-s");
    assert_eq!(kb.rename_session, "alt-r");
    assert_eq!(kb.delete_session, "alt-d");
    assert_eq!(kb.edit_labels, "alt-l");
    assert_eq!(kb.cd_session, "ctrl-d");
    assert_eq!(kb.sort_toggle, "ctrl-s");
    assert_eq!(kb.clone_repo, "alt-a");
    assert_eq!(kb.view_tree, "ctrl-t");
    assert_eq!(kb.view_workspace, "ctrl-w");
    assert_eq!(kb.view_repo, "ctrl-e");
    assert_eq!(kb.view_owner, "ctrl-o");
    assert_eq!(kb.view_label, "ctrl-g");
}

#[test]
fn shell_init_scripts() {
    assert!(shell_init("zsh").unwrap().contains("ez()"));
    assert_eq!(shell_init("zsh").unwrap(), shell_init("bash").unwrap());
    assert!(shell_init("fish").is_ok());
    assert!(shell_init("pwsh").is_ok());
    assert!(shell_init("tcsh").is_err());
}

#[test]
fn error_messages() {
    assert_eq!(EzError::SessionNotFound("x".into()).message(), "Session 'x' not found");
    assert_eq!(EzError::PluginTimeout("p".into(), 30).message(), "Plugin 'p' timed out after 30s");
    assert_eq!(
        EzError::SessionHasChildren { name: "a".into(), children: vec!["b".into(), "c".into()] }.message(),
        "Session 'a' has children: [\"b\", \"c\"]. Use --force to delete."
    );
    assert_eq!(EzError::Cancelled.message(), "Aborted.");
}

fn item(display: &str, value: &str) -> SelectItem {
    SelectItem { display: display.to_string(), value: value.to_string() }
}

#[test]
fn selector_parsing() {
    let items = vec![item("First", "1"), item("Second", "2")];
    assert_eq!(item_lines(&items, true), vec!["1\tFirst", "2\tSecond"]);
    assert_eq!(item_lines(&items, false), vec!["First", "Second"]);
    assert_eq!(select_one_result(&items, true, true, "2\tSecond\n"), Some(1));
    assert_eq!(select_one_result(&items, false, true, "First\n"), Some(0));
    assert_eq!(select_one_result(&items, true, false, "2\tSecond\n"), None);
    assert_eq!(select_one_result(&items, true, true, "9\tNine\n"), None);
    assert_eq!(input_result("  typed  \nmore", None), "typed");
    assert_eq!(input_result("\n", Some("dflt")), "dflt");
    assert_eq!(confirm_prompt_text("Delete?", false), "Delete? [y/N]: ");
    assert!(confirm_result(" YES ", false));
    assert!(!confirm_result("no", true));
    assert!(confirm_result("", true));
}

fn rows(v: &[KeyRow]) -> Vec<(String, String)> {
    v.iter().map(|r| (r.key.clone(), r.label.clone())).collect()
}

#[test]
fn session_keybind_help_rows() {
    let kb = KeybindsConfig::default();
    let views = vec![PluginViewInfo { view_name: "pr".into(), plugin_name: "gh".into(), key: "ctrl-p".into(), label: "PRs".into() }];
    let binds = vec![PluginBindInfo { bind_name: "o".into(), plugin_name: "gh".into(), key: "alt-o".into(), label: "Open PR".into() }];
    let (left, right) = session_keybind_entries(&kb, &views, &binds);
    let l = rows(&left);
    assert_eq!(l[0], ("Enter".to_string(), "Enter session".to_string()));
    assert_eq!(l[1], ("Alt-n".to_string(), "New child session".to_string()));
    assert_eq!(l[5], ("Alt-d".to_string(), "Delete".to_string()));
    assert_eq!(l[8], ("Alt-o".to_string(), "Open PR".to_string()));
    assert_eq!(l.len(), 9);
    assert_eq!(left[5].tone, KeyTone::Danger);
    let r = rows(&right);
    assert_eq!(r, vec![
        ("Ctrl-s".to_string(), "Toggle sort".to_string()),
        ("Esc".to_string(), "Go back".to_string()),
        ("Ctrl-p".to_string(), "PRs view".to_string()),
    ]);
}

#[test]
fn main_keybind_help_rows() {
    let kb = KeybindsConfig::default();
    let (left, right) = main_keybind_entries(&kb, &vec![]);
    assert_eq!(rows(&left), vec![
        ("Enter".to_string(), "Open sessions".to_string()),
        ("Alt-a".to_string(), "Clone repo".to_string()),
        ("Alt-l".to_string(), "Edit labels".to_string()),
        ("Ctrl-s".to_string(), "Toggle sort".to_string()),
        ("Esc".to_string(), "Quit".to_string()),
    ]);
    assert_eq!(rows(&right)[0], ("Ctrl-t".to_string(), "Tree".to_string()));
    assert_eq!(right.len(), 5);
}
