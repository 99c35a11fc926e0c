use terra_git::domain::TagInfo;
use terra_git::refs::{
    annotated_tag, delete_branch_check, remote_name_free, rename_unborn, safe_ref, sort_tags,
    stash_push_command, tag_is_lightweight, tag_target, unborn_head_target,
};

#[test]
fn branch_arguments_never_become_options() {
    assert_eq!(safe_ref("main", true).unwrap(), "refs/heads/main");
    assert_eq!(safe_ref("-rf", true).unwrap(), "refs/heads/-rf");
    assert_eq!(safe_ref("origin/x", false).unwrap(), "origin/x");
    assert_eq!(safe_ref("--exec=x", false).unwrap_err().message(), "Invalid reference name: --exec=x");
}

#[test]
fn unborn_branches_are_renamed_by_moving_head() {
    assert_eq!(unborn_head_target("trunk").unwrap(), "refs/heads/trunk");
    assert_eq!(unborn_head_target("with space").unwrap_err().message(), "Invalid branch name: with space");
    assert_eq!(rename_unborn(true, Some("refs/heads/master"), "master", "main").unwrap(), "refs/heads/main");
    assert_eq!(rename_unborn(false, Some("refs/heads/master"), "master", "main").unwrap_err().code(), "branch_not_found");
    assert_eq!(rename_unborn(true, Some("refs/heads/other"), "master", "main").unwrap_err().code(), "branch_not_found");
}

#[test]
fn branch_and_remote_checks() {
    assert_eq!(
        delete_branch_check("main", true, true, true).unwrap_err().message(),
        "The current branch cannot be deleted"
    );
    assert_eq!(delete_branch_check("f", false, false, false).unwrap_err().code(), "branch_not_merged");
    assert!(delete_branch_check("f", false, true, false).is_ok());
    assert!(delete_branch_check("f", false, false, true).is_ok());
    assert_eq!(
        remote_name_free("origin", true).unwrap_err().message(),
        "Remote \u{201c}origin\u{201d} already exists"
    );
    assert!(remote_name_free("origin", false).is_ok());
}

#[test]
fn tags_and_stash() {
    assert_eq!(tag_target(""), "HEAD");
    assert_eq!(tag_target("abc"), "abc");
    assert!(tag_is_lightweight("  "));
    assert!(!tag_is_lightweight("v1"));
    let t = annotated_tag("v1".into(), "abc".into(), Some(" Release \n"));
    assert_eq!(t.message.as_deref(), Some("Release"));
    let light = TagInfo { name: "v2".into(), target_id: "d".into(), message: None, is_annotated: false };
    let other = TagInfo { name: "a".into(), target_id: "e".into(), message: None, is_annotated: false };
    let sorted = sort_tags(vec![t, other, light]);
    let names: Vec<&str> = sorted.iter().map(|t| t.name.as_str()).collect();
    assert_eq!(names, vec!["v2", "v1", "a"]);
    let c = stash_push_command("wip", &["a b.txt".to_string()]);
    assert_eq!(c.args, vec!["stash", "push", "-u", "-m", "wip", "--", ":(literal)a b.txt"]);
    let c = stash_push_command("  ", &[]);
    assert_eq!(c.args, vec!["stash", "push", "-u"]);
}
