use ez_workspaces::session::worktree::parse_worktree_list_porcelain;

#[test]
fn parse_porcelain_multiple_worktrees() {
    let output = "\
worktree /Users/me/repo
HEAD abc1234567890
branch refs/heads/main

worktree /Users/me/.ez/repo/feature
HEAD def4567890123
branch refs/heads/feature

worktree /Users/me/.ez/repo/experiment
HEAD 9876543210abc
branch refs/heads/experiment
";
    let result = parse_worktree_list_porcelain(output);
    assert_eq!(result.len(), 3);
    assert_eq!(result[0].path, "/Users/me/repo");
    assert_eq!(result[0].branch.as_deref(), Some("main"));
    assert_eq!(result[1].path, "/Users/me/.ez/repo/feature");
    assert_eq!(result[1].branch.as_deref(), Some("feature"));
    assert_eq!(result[2].path, "/Users/me/.ez/repo/experiment");
    assert_eq!(result[2].branch.as_deref(), Some("experiment"));
}

#[test]
fn parse_porcelain_detached_head() {
    let output = "\
worktree /Users/me/repo
HEAD abc1234567890
branch refs/heads/main

worktree /Users/me/.ez/repo/detached
HEAD deadbeef12345
detached
";
    let result = parse_worktree_list_porcelain(output);
    assert_eq!(result.len(), 2);
    assert_eq!(result[1].branch.as_deref(), Some("deadbee"));
}

#[test]
fn parse_porcelain_no_trailing_newline() {
    let output = "worktree /Users/me/repo\nHEAD abc1234567890\nbranch refs/heads/main";
    let result = parse_worktree_list_porcelain(output);
    assert_eq!(result.len(), 1);
    assert_eq!(result[0].branch.as_deref(), Some("main"));
}

#[test]
fn parse_porcelain_empty() {
    let result = parse_worktree_list_porcelain("");
    assert!(result.is_empty());
}

#[test]
fn parse_porcelain_bare_and_short_detached() {
    let output = "worktree /r/bare\nbare\n\nworktree /r/d\nHEAD abc\ndetached\n\nHEAD zzz\n";
    let result = parse_worktree_list_porcelain(output);
    assert_eq!(result.len(), 2);
    assert_eq!(result[0].branch, None);
    assert_eq!(result[1].branch.as_deref(), Some("abc"));
}
