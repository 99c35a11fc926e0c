use terra_git::domain::{CommitInfo, StashInfo};
use terra_git::history::{
    find_stash_by_commit, hard_reset_check, message_body, plan_commit, recreate_branch_check,
    reset_branch_check, search_step, signed_commit_command, squash_base_check, squash_precheck,
    uncommit_check, CommitPlan, CommitWay, HeadLookup,
};
use terra_git::ops::RepoState;

#[test]
fn commit_plans_follow_the_repository_state() {
    assert_eq!(
        plan_commit("  \n", false, RepoState::Clean, HeadLookup::Commit, false).unwrap_err().code(),
        "empty_commit_message"
    );
    assert!(matches!(
        plan_commit("m", true, RepoState::Clean, HeadLookup::Commit, false),
        Ok(CommitPlan { backup: true, way: CommitWay::Amend })
    ));
    let e = plan_commit("m", true, RepoState::CherryPick, HeadLookup::Commit, false).unwrap_err();
    assert_eq!(e.code(), "sidecar_failed");
    assert_eq!(
        e.message(),
        "git command failed: Cannot amend while an operation is in progress — continue or abort it first"
    );
    assert_eq!(
        plan_commit("m", true, RepoState::Clean, HeadLookup::Unborn, false).unwrap_err().code(),
        "nothing_to_amend"
    );
    assert!(matches!(
        plan_commit("m", false, RepoState::Merge, HeadLookup::Commit, false),
        Ok(CommitPlan {
            backup: false,
            way: CommitWay::New { merge_parents: true, author_from_cherry_pick: false, cleanup_state: true }
        })
    ));
    assert!(matches!(
        plan_commit("m", false, RepoState::CherryPickSequence, HeadLookup::Commit, false),
        Ok(CommitPlan {
            way: CommitWay::New { merge_parents: false, author_from_cherry_pick: true, cleanup_state: true },
            ..
        })
    ));
    assert!(matches!(
        plan_commit("m", false, RepoState::Revert, HeadLookup::Unborn, false),
        Ok(CommitPlan {
            way: CommitWay::New { merge_parents: false, author_from_cherry_pick: false, cleanup_state: true },
            ..
        })
    ));
    assert!(matches!(
        plan_commit("m", true, RepoState::Merge, HeadLookup::Commit, true),
        Ok(CommitPlan { backup: false, way: CommitWay::Signed })
    ));
    let c = signed_commit_command("/tmp/msg", true);
    assert_eq!(c.args, vec!["commit", "-F", "/tmp/msg", "--amend"]);
}

#[test]
fn uncommit_and_squash_are_refused_where_they_would_lose_work() {
    assert_eq!(
        uncommit_check(false, 1).unwrap_err().message(),
        "Undo is not possible during a running operation"
    );
    assert_eq!(
        uncommit_check(true, 2).unwrap_err().message(),
        "A merge commit cannot be undone via uncommit"
    );
    assert_eq!(uncommit_check(true, 0).unwrap_err().message(), "The first commit cannot be undone");
    assert!(uncommit_check(true, 1).is_ok());
    assert_eq!(squash_precheck(" ", true).unwrap_err().code(), "empty_commit_message");
    assert_eq!(
        squash_precheck("m", false).unwrap_err().message(),
        "Squash is not possible during a running operation"
    );
    assert_eq!(
        squash_base_check(None, "h", true).unwrap_err().message(),
        "The first commit cannot be part of a squash"
    );
    assert_eq!(
        squash_base_check(Some("h"), "h", true).unwrap_err().message(),
        "There is nothing to squash"
    );
    assert_eq!(
        squash_base_check(Some("b"), "h", false).unwrap_err().message(),
        "The squash base is not an ancestor of the current commit"
    );
    assert!(squash_base_check(Some("b"), "h", true).is_ok());
}

#[test]
fn undo_steps_check_branch_tip_and_worktree() {
    assert_eq!(
        reset_branch_check(false, Some("main"), "main", None, None).unwrap_err().message(),
        "Finish or abort the running operation first"
    );
    assert_eq!(
        reset_branch_check(true, Some("dev"), "main", None, None).unwrap_err().message(),
        "Undo is only possible on the original branch: main"
    );
    assert_eq!(
        reset_branch_check(true, Some("main"), "main", Some("abc"), Some("abd")).unwrap_err().code(),
        "undo_stale"
    );
    assert!(reset_branch_check(true, Some("main"), "main", Some("abc"), Some("abc")).is_ok());
    assert!(reset_branch_check(true, Some("main"), "main", None, None).is_ok());
    assert!(hard_reset_check(false, true).is_ok());
    assert_eq!(
        hard_reset_check(false, false).unwrap_err().message(),
        "Uncommitted changes in the working directory — stash or discard them first"
    );
    assert_eq!(
        recreate_branch_check("x", true).unwrap_err().message(),
        "Branch \u{201c}x\u{201d} already exists"
    );
    let list = vec![
        StashInfo { index: 0, message: "a".into(), id: "1111111111".into() },
        StashInfo { index: 1, message: "b".into(), id: "2222222222".into() },
    ];
    assert_eq!(find_stash_by_commit(&list, "22222222222222").unwrap(), 1);
    assert_eq!(find_stash_by_commit(&list, "1111111").unwrap(), 0);
    assert_eq!(find_stash_by_commit(&list, "3333333").unwrap_err().message(), "Stash no longer exists");
    assert_eq!(find_stash_by_commit(&list, "-x").unwrap_err().message(), "Invalid commit id: -x");
}

fn commit(id: &str, summary: &str, name: &str, email: &str) -> CommitInfo {
    CommitInfo {
        id: id.into(),
        short_id: id.chars().take(8).collect(),
        summary: summary.into(),
        author_name: name.into(),
        author_email: email.into(),
        time: 0,
        parent_ids: vec![],
    }
}

#[test]
fn search_keeps_matching_commits_up_to_the_limit() {
    let mut found = Vec::new();
    let mut scanned = 0usize;
    assert!(search_step(&mut found, &mut scanned, commit("abc1", "Fix Parser", "Ann", "a@x"), "parser", 2));
    assert!(search_step(&mut found, &mut scanned, commit("def2", "other", "Bob", "b@x"), "parser", 2));
    assert!(!search_step(&mut found, &mut scanned, commit("0a1", "x", "PARSER Team", "p@x"), "parser", 2));
    assert_eq!(found.len(), 2);
    assert_eq!(scanned, 3);
    let mut found2 = Vec::new();
    let mut n = 0usize;
    search_step(&mut found2, &mut n, commit("deadbeef", "x", "y", "z"), "dead", 5);
    assert_eq!(found2.len(), 1);
    assert_eq!(message_body("subject\n\n  body text \n"), "body text");
    assert_eq!(message_body("only subject"), "");
}

#[test]
fn blank_commit_message_is_refused_first() {
    assert_eq!(
        terra_git::history::commit_message_check(" \n\t").unwrap_err().code(),
        "empty_commit_message"
    );
    assert!(terra_git::history::commit_message_check("Fix").is_ok());
}
