use ez_workspaces::session::current::{
    count_components, encode_mux_name, md5_hex, mux_name_matches, path_matches_current, repo_basename,
};

#[test]
fn mux_name_matches_full_encoding() {
    assert!(mux_name_matches("my-repo", "main", "my-repo__main"));
    assert!(!mux_name_matches("my-repo", "main", "other__main"));
}

#[test]
fn mux_name_matches_shortened_encoding() {
    assert!(mux_name_matches(
        "acme-widgets",
        "refactor-auth-flow",
        "refactor-auth-flow_7239"
    ));
}

#[test]
fn mux_name_matches_shortened_and_truncated_encoding() {
    assert!(mux_name_matches(
        "acme-widgets",
        "feat-ABC-123-add-dark-mode-toggle",
        "feat-ABC-123-add-da_eb18"
    ));
}

#[test]
fn shortened_encoding_distinguishes_repos() {
    assert!(mux_name_matches(
        "shared-component-library",
        "refactor-auth-flow",
        "refactor-auth-flow_6f3e"
    ));
    assert!(!mux_name_matches(
        "shared-component-library",
        "refactor-auth-flow",
        "refactor-auth-flow_7239"
    ));
}

#[test]
fn shortened_encoding_distinguishes_names_truncated_alike() {
    assert!(mux_name_matches(
        "acme-widgets",
        "feat-ABC-123-add-dark-mode",
        "feat-ABC-123-add-da_9fe7"
    ));
    assert!(!mux_name_matches(
        "acme-widgets",
        "feat-ABC-123-add-dark-theme",
        "feat-ABC-123-add-da_9fe7"
    ));
}

#[test]
fn shortened_encoding_agrees_on_non_ascii() {
    assert!(mux_name_matches(
        "acme-widgets",
        "feat/ABC-1 café",
        "feat_ABC-1_caf___fda6"
    ));
}

#[test]
fn mux_name_rejects_mismatched_digest_and_prefix() {
    assert!(!mux_name_matches(
        "acme-widgets",
        "refactor-auth-flow",
        "refactor-auth-flow_0000"
    ));
    assert!(!mux_name_matches(
        "acme-widgets",
        "refactor-auth-flow",
        "some-other-name_7239"
    ));
    assert!(!mux_name_matches(
        "acme-widgets",
        "refactor-auth-flow",
        "refactor-auth-flow_723"
    ));
}

#[test]
fn encode_joins_parts_with_double_underscore() {
    assert_eq!(encode_mux_name("my-repo", "main"), "my-repo__main");
}

#[test]
fn encode_replaces_separators_and_punctuation() {
    assert_eq!(
        encode_mux_name("my.repo", "feat/ABC-1"),
        "my_repo__feat_ABC-1"
    );
    assert_eq!(encode_mux_name("a:b", "c d"), "a_b__c_d");
    assert_eq!(encode_mux_name(".dotfiles", "wip"), "_dotfiles__wip");
}

#[test]
fn encode_never_emits_a_slash() {
    assert!(!encode_mux_name("owner/repo", "a/b/c").contains('/'));
}

#[test]
fn encode_replaces_non_ascii_per_byte() {
    assert_eq!(encode_mux_name("repo", "café"), "repo__caf__");
}

#[test]
fn encode_is_lossy_and_can_collide() {
    assert_eq!(encode_mux_name("a.b", "c"), encode_mux_name("a:b", "c"));
}

#[test]
fn path_match_accepts_session_root() {
    assert!(path_matches_current("/tmp/repo-worktree", "/tmp/repo-worktree"));
}

#[test]
fn path_match_accepts_descendant_of_session_root() {
    assert!(path_matches_current(
        "/tmp/repo-worktree/src/module",
        "/tmp/repo-worktree"
    ));
}

#[test]
fn path_match_rejects_common_prefix_that_is_not_parent() {
    assert!(!path_matches_current(
        "/tmp/repo-worktree-extra",
        "/tmp/repo-worktree"
    ));
}

#[test]
fn md5_hex_of_known_input() {
    let h = md5_hex(b"abc");
    assert_eq!(h, "900150983cd24fb0d6963f7d28e17f72");
}

#[test]
fn component_count_and_basename() {
    assert_eq!(count_components("/a/b/c"), 4);
    assert_eq!(count_components("a//b/"), 2);
    assert_eq!(repo_basename("/w/my-repo"), "my-repo");
    assert_eq!(repo_basename("/"), "");
}
