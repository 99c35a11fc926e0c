use terra_git::index_plan::{discard_plan, stage_plan, unstage_plan, unstage_unborn_plan, IndexOp};
use terra_git::views::{
    backup_list, first_line, head_name_label, ignore_file_content, initial_branch,
    parse_worktrees, rebase_state_files, restore_check, short_id, signing_report, signing_tree,
    sketch_branches, sketch_commits, sort_names, sparse_patterns, state_count, RawSketchBranch,
    RawSketchCommit,
};

#[test]
fn worktree_list_is_parsed() {
    let out = "worktree /r\nHEAD abc\nbranch refs/heads/main\n\nworktree /w\nHEAD def\ndetached";
    let w = parse_worktrees(out);
    assert_eq!(w.len(), 2);
    assert_eq!(w[0].path, "/r");
    assert!(w[0].is_main);
    assert_eq!(w[0].branch.as_deref(), Some("main"));
    assert_eq!(w[1].head_id.as_deref(), Some("def"));
    assert_eq!(w[1].branch, None);
    assert!(!w[1].is_main);
    assert!(parse_worktrees("").is_empty());
}

#[test]
fn sparse_state_and_names() {
    assert_eq!(sparse_patterns(" a \n\n b\n"), vec!["a", "b"]);
    let names = vec!["src".to_string(), "docs".to_string(), "app".to_string()];
    assert_eq!(sort_names(names), vec!["app", "docs", "src"]);
}

#[test]
fn backups_are_listed_newest_first() {
    let raws = vec![
        ("refs/terra-git/backup/squash-100-0".to_string(), "a".to_string(), "s1".to_string()),
        ("refs/terra-git/backup/rebase-interactive-300-1".to_string(), "b".to_string(), "s2".to_string()),
        ("refs/terra-git/backup/amend-100-1".to_string(), "c".to_string(), "s3".to_string()),
    ];
    let list = backup_list(&raws);
    assert_eq!(list[0].op, "rebase-interactive");
    assert_eq!(list[0].timestamp, 300);
    assert_eq!(list[1].name, "refs/terra-git/backup/squash-100-0");
    assert_eq!(list[2].op, "amend");
    assert_eq!(
        restore_check(false, true).unwrap_err().message(),
        "Finish or abort the running operation (merge/rebase) first"
    );
    assert!(restore_check(true, false).is_err());
    assert!(restore_check(true, true).is_ok());
}

#[test]
fn operation_state_files() {
    assert_eq!(first_line("  abc \nrest"), Some("abc".to_string()));
    assert_eq!(first_line("\n"), None);
    assert_eq!(state_count("3\n"), Some(3));
    assert_eq!(state_count("x"), None);
    assert_eq!(rebase_state_files(true), ("rebase-merge", "msgnum", "end"));
    assert_eq!(rebase_state_files(false), ("rebase-apply", "next", "last"));
    assert_eq!(head_name_label("refs/heads/feature"), "feature");
    assert_eq!(head_name_label("detached"), "detached");
    assert_eq!(short_id("0123456789abcdef"), "01234567");
    assert_eq!(short_id("abc"), "abc");
}

#[test]
fn small_answers() {
    assert_eq!(ignore_file_content("a", "*.log").unwrap(), "a\n*.log\n");
    assert_eq!(ignore_file_content("", "x").unwrap(), "x\n");
    assert_eq!(
        ignore_file_content("", "a\nb").unwrap_err().message(),
        "Ignore pattern must be a single line: \"a\\nb\""
    );
    assert_eq!(signing_report(None), "Signing works (format: openpgp)");
    assert_eq!(signing_report(Some("ssh")), "Signing works (format: ssh)");
    assert!(signing_tree(None).is_err());
    assert_eq!(initial_branch(None), Some("main"));
    assert_eq!(initial_branch(Some("  ")), Some("main"));
    assert_eq!(initial_branch(Some("trunk")), None);
}

#[test]
fn sketch_orders_branches_and_marks_tags() {
    let ids = vec!["c3".to_string(), "c2".to_string(), "c1".to_string()];
    let raws = vec![
        RawSketchBranch { name: "old".into(), base: Some("c1".into()), ahead: Some(500), tip_time: 10 },
        RawSketchBranch { name: "new".into(), base: Some("zz".into()), ahead: None, tip_time: 30 },
        RawSketchBranch { name: "mid".into(), base: None, ahead: Some(2), tip_time: 20 },
    ];
    let b = sketch_branches(&ids, &raws, 2);
    assert_eq!(b.len(), 2);
    assert_eq!(b[0].name, "new");
    assert_eq!(b[0].base_index, None);
    assert_eq!(b[0].ahead, 0);
    assert_eq!(b[1].name, "mid");
    let all = sketch_branches(&ids, &raws, 5);
    assert_eq!(all[2].base_index, Some(2));
    assert_eq!(all[2].ahead, 99);
    let commits = sketch_commits(
        &[RawSketchCommit { id: "c3".into(), time: 5, parents: 2 }, RawSketchCommit { id: "c2".into(), time: 4, parents: 1 }],
        &["c2".to_string()],
    );
    assert!(commits[0].is_merge && !commits[0].has_tag);
    assert!(!commits[1].is_merge && commits[1].has_tag);
}

#[test]
fn index_plans_carry_renames_along() {
    let renames = vec![("new.txt".to_string(), "old.txt".to_string())];
    assert_eq!(
        stage_plan(&[("new.txt".to_string(), true), ("gone".to_string(), false)], &renames),
        vec![
            IndexOp::Add("new.txt".into()),
            IndexOp::Remove("old.txt".into()),
            IndexOp::Remove("gone".into())
        ]
    );
    assert_eq!(
        unstage_plan(&[("new.txt".to_string(), false)], &renames, &["old.txt".to_string()]),
        vec![IndexOp::Remove("new.txt".into()), IndexOp::FromHead("old.txt".into())]
    );
    assert_eq!(
        unstage_plan(&[("a".to_string(), true)], &renames, &[]),
        vec![IndexOp::FromHead("a".into())]
    );
    assert_eq!(unstage_unborn_plan(&["a".to_string()]), vec![IndexOp::Remove("a".into())]);
    let (delete, restore) =
        discard_plan(&[("new.txt".to_string(), true), ("t".to_string(), false)], &renames);
    assert_eq!(delete, vec!["new.txt"]);
    assert_eq!(restore, vec!["old.txt", "t"]);
}
