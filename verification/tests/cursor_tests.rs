use ez_workspaces::session::cursor::{cursor_chat_hash, cursor_slug};

#[test]
fn test_cursor_slug_basic() {
    let slug = cursor_slug("/Users/ofirg/workspace/my-project");
    assert_eq!(slug, "Users-ofirg-workspace-my-project");
}

#[test]
fn test_cursor_slug_collapses_dashes() {
    let slug = cursor_slug("/Users///ofirg//workspace");
    assert_eq!(slug, "Users-ofirg-workspace");
}

#[test]
fn test_cursor_chat_hash_deterministic() {
    let hash1 = cursor_chat_hash("/tmp/test-workspace");
    let hash2 = cursor_chat_hash("/tmp/test-workspace");
    assert_eq!(hash1, hash2);
    assert_eq!(hash1.len(), 32);
}

#[test]
fn slug_of_only_separators_is_empty() {
    assert_eq!(cursor_slug("///"), "");
    assert_eq!(cursor_slug("-a--b-"), "a-b");
}

#[test]
fn chat_hash_is_md5_of_path() {
    assert_eq!(cursor_chat_hash("abc"), "900150983cd24fb0d6963f7d28e17f72");
}

#[test]
fn slug_shape_and_idempotence() {
    for p in ["/a//b__c/", "--x--y--", "/Users/me/my project!", "", "---"] {
        let s = cursor_slug(p);
        assert!(s.chars().all(|c| c.is_alphanumeric() || c == '-'));
        assert!(!s.starts_with('-') && !s.ends_with('-'));
        assert!(!s.contains("--"));
        assert_eq!(cursor_slug(&s), s);
    }
}

#[test]
fn slug_keeps_the_alphanumerics_in_order() {
    let p = "/Users/me/Ünïcode dir/x_1-2";
    let s = cursor_slug(p);
    let a: String = s.chars().filter(|c| *c != '-').collect();
    let b: String = p.chars().filter(|c| c.is_alphanumeric() && *c != '-').collect();
    assert_eq!(a, b);
}
