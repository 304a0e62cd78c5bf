use ez_workspaces::paths::{collapse_tilde_with, expand_tilde, expand_tilde_with, repo_id_from_path};

#[test]
fn test_repo_id_from_path() {
    assert_eq!(
        repo_id_from_path("/home/user/workspace/personal/my-repo"),
        "personal-my-repo"
    );
}

#[test]
fn test_repo_id_single_component() {
    assert_eq!(repo_id_from_path("/repo"), "repo");
}

#[test]
fn test_expand_tilde_no_tilde() {
    let result = expand_tilde("/absolute/path");
    assert_eq!(result, "/absolute/path");
}

#[test]
fn repo_id_lowercases_and_dashes_spaces() {
    assert_eq!(repo_id_from_path("/w/My Team/Big Repo"), "my-team-big-repo");
}

#[test]
fn tilde_round_trip() {
    assert_eq!(expand_tilde_with("~/x/y", Some("/home/u")), "/home/u/x/y");
    assert_eq!(collapse_tilde_with("/home/u/x/y", Some("/home/u")), "~/x/y");
}

#[test]
fn collapse_tilde_only_at_a_path_boundary() {
    assert_eq!(collapse_tilde_with("/home/user", Some("/home/user")), "~");
    assert_eq!(collapse_tilde_with("/home/user/x", Some("/home/user")), "~/x");
    assert_eq!(collapse_tilde_with("/home/user2/x", Some("/home/user")), "/home/user2/x");
    assert_eq!(collapse_tilde_with("/srv/x", None), "/srv/x");
}
