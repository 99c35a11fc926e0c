//! The engine's refusals, checked on the decisions that make them: what the
//! engine reads from the repository is given here as plain values.

use terra_git::branches::tracking_source;
use terra_git::domain::RebaseStep;
use terra_git::history::{
    plan_commit, reset_branch_check, squash_precheck, uncommit_check, CommitWay, HeadLookup,
};
use terra_git::ops::{
    bisect_mark, bisect_start, check_backup_ref, open_mergetool, reject_option_like, validate_sparse_dirs,
    RepoState,
};
use terra_git::rebase::rebase_todo;
use terra_git::sidecar::{process_wait_step, ProcessEnd};
use terra_git::refs::remote_name_free;
use terra_git::views::signing_tree;

fn full_id(c: char) -> String {
    std::iter::repeat(c).take(40).collect()
}

fn pick(action: &str, id: &str, author: Option<&str>) -> RebaseStep {
    RebaseStep {
        action: action.to_string(),
        commit_id: id.to_string(),
        message: None,
        author: author.map(|a| a.to_string()),
    }
}

#[test]
fn bisect_validates_ref_and_action() {
    assert!(bisect_start("not-hex", None).is_err());
    assert!(bisect_mark("wat").is_err());
    assert!(bisect_start("abcdef1", None).is_ok());
    assert!(bisect_mark("good").is_ok());
}

#[test]
fn worktree_ops_reject_option_injection() {
    assert!(reject_option_like("--force", "worktree path").is_err());
    assert!(reject_option_like("../wt", "worktree path").is_ok());
}

#[test]
fn sparse_set_validates_input() {
    assert_eq!(validate_sparse_dirs(&[]).unwrap_err().code(), "invalid_operation");
    for bad in ["-evil", "a/../b", "a\\b"] {
        let err = validate_sparse_dirs(&[bad.to_string()]).unwrap_err();
        assert_eq!(err.code(), "invalid_operation", "expected rejection for {bad:?}");
    }
    assert!(validate_sparse_dirs(&["a".to_string()]).is_ok());
}

#[test]
fn restore_backup_validates_ref_names() {
    assert!(check_backup_ref("refs/heads/master").is_err());
    assert!(check_backup_ref("refs/terra-git/backup/squash-999").is_ok());
}

#[test]
fn rebase_rejects_unsafe_author() {
    let top = full_id('b');
    let range = vec![top.clone()];
    for author in ["x' && calc; '<a@b>", "-x <a@b>", "New\nexec touch PWNED\n#x <a@b>"] {
        assert!(rebase_todo(&[pick("pick", &top, Some(author))], &range).is_err(), "{author:?}");
    }
}

#[test]
fn rebase_interactive_rejects_gaps() {
    let c1 = full_id('1');
    let c2 = full_id('2');
    let err = rebase_todo(&[pick("pick", &c1, None)], &[c2, c1.clone()]).unwrap_err();
    assert_eq!(err.code(), "invalid_operation");
}

#[test]
fn rebase_rejects_author_on_squash() {
    let a = full_id('a');
    let b = full_id('b');
    let err = rebase_todo(
        &[pick("pick", &a, None), pick("squash", &b, Some("New Author <new@x.de>"))],
        &[b.clone(), a.clone()],
    )
    .unwrap_err();
    assert_eq!(err.code(), "invalid_operation");
}

#[test]
fn rebase_rejects_incomplete_author_and_stays_clean() {
    let top = full_id('c');
    let range = vec![top.clone()];
    for author in [" <>", "Name"] {
        let err = rebase_todo(&[pick("pick", &top, Some(author))], &range).unwrap_err();
        assert_eq!(err.code(), "invalid_operation");
    }
}

#[test]
fn add_remote_rejects_invalid_and_duplicate_names() {
    assert!(remote_name_free("origin", true).is_err());
    assert!(remote_name_free("origin", false).is_ok());
}

#[test]
fn undo_rejects_merge_commit() {
    assert_eq!(uncommit_check(true, 2).unwrap_err().code(), "invalid_operation");
}

#[test]
fn squash_from_is_transactional_on_empty_message() {
    assert_eq!(squash_precheck("   ", true).unwrap_err().code(), "empty_commit_message");
}

#[test]
fn check_signing_without_head_reports_error() {
    let err = signing_tree(None).unwrap_err();
    assert!(err.message().contains("at least one commit"), "unexpected message: {}", err.message());
    assert_eq!(signing_tree(Some("abc".to_string())).unwrap(), "abc");
}

#[test]
fn undo_reset_refuses_on_foreign_branch() {
    let err = reset_branch_check(true, Some("other"), "main", None, None).unwrap_err();
    assert_eq!(err.code(), "invalid_operation");
    assert!(err.message().contains("original branch"));
}

#[test]
fn open_mergetool_does_not_run_repo_local_command() {
    let err = open_mergetool("evil", None, None, true, "a.txt").unwrap_err();
    assert!(err.message().contains("repo-local"), "an explanatory error message expected, was: {}", err.message());
}

#[test]
fn amend_without_commit_fails() {
    let err = plan_commit("whatever", true, RepoState::Clean, HeadLookup::Unborn, false).unwrap_err();
    assert_eq!(err.code(), "nothing_to_amend");
}

#[test]
fn amend_during_cherry_pick_is_rejected() {
    let err = plan_commit("accidental amend", true, RepoState::CherryPick, HeadLookup::Commit, false)
        .expect_err("an amend during a cherry-pick has to be rejected");
    assert!(err.message().to_lowercase().contains("amend"));
    // The cherry-pick can still be finished with an ordinary commit, which
    // keeps the picked commit's author and ends the operation.
    let plan = plan_commit("Cherry-pick resolved", false, RepoState::CherryPick, HeadLookup::Commit, false)
        .expect("an ordinary commit during a cherry-pick stays allowed");
    assert!(!plan.backup);
    assert_eq!(
        plan.way,
        CommitWay::New { merge_parents: false, author_from_cherry_pick: true, cleanup_state: true }
    );
}

#[test]
fn checkout_unknown_branch_reports_error() {
    assert_eq!(tracking_source(&[], "does-not-exist").unwrap_err().code(), "branch_not_found");
}

#[test]
fn empty_repo_log_is_empty_and_commit_without_message_forbidden() {
    let err = plan_commit("   ", false, RepoState::Clean, HeadLookup::Unborn, false).unwrap_err();
    assert_eq!(err.code(), "empty_commit_message");
}

#[test]
fn process_command_line_puts_the_guard_before_the_directory() {
    let mut cmd = terra_git::sidecar::run_git(&["status", "--porcelain"]);
    cmd.envs.push(("GIT_SEQUENCE_EDITOR".to_string(), "x".to_string()));
    let (before, after) = terra_git::sidecar::process_args(&cmd);
    assert_eq!(before, vec!["-c", "protocol.ext.allow=never", "-C"]);
    assert_eq!(after, vec!["status", "--porcelain"]);
    let envs = terra_git::sidecar::process_envs(&cmd);
    let want: Vec<(String, String)> = [("GIT_TERMINAL_PROMPT", "0"), ("GIT_EDITOR", "true"), ("GIT_SEQUENCE_EDITOR", "x")]
        .iter()
        .map(|(k, v)| (k.to_string(), v.to_string()))
        .collect();
    assert_eq!(envs, want);
}

#[test]
fn log_command_line_and_environment() {
    let (before, after) = terra_git::sidecar::log_process_args(vec!["HEAD".to_string()]);
    assert_eq!(before, vec!["-c", "protocol.ext.allow=never", "-C"]);
    assert_eq!(after[0], "log");
    assert_eq!(after[1], "--topo-order");
    assert_eq!(after[2], "-z");
    assert_eq!(after.last().unwrap(), "HEAD");
    assert_eq!(after.len(), 5);
    let envs = terra_git::sidecar::log_envs();
    assert_eq!(envs, vec![("GIT_TERMINAL_PROMPT".to_string(), "0".to_string()), ("LC_ALL".to_string(), "C".to_string())]);
}

#[test]
fn wait_step_prefers_exit_then_cancel_then_deadline() {
    assert!(matches!(
        process_wait_step(Some((false, Some(2))), true, true),
        Some(ProcessEnd::Exited { success: false, code: Some(2) })
    ));
    assert!(matches!(process_wait_step(None, true, true), Some(ProcessEnd::Cancelled)));
    assert!(matches!(process_wait_step(None, false, true), Some(ProcessEnd::TimedOut)));
    assert!(process_wait_step(None, false, false).is_none());
}

#[test]
fn commit_graph_upkeep_follows_only_success() {
    let ok: Result<String, terra_git::error::GitEngineError> = Ok("done".to_string());
    let cmd = terra_git::sidecar::maintenance_after(&ok).expect("upkeep after success");
    assert_eq!(cmd.args, vec!["commit-graph", "write", "--reachable", "--split", "--no-progress"]);
    assert_eq!(cmd.timeout_secs, 3600);
    let failed: Result<String, terra_git::error::GitEngineError> = Err(terra_git::error::GitEngineError::Cancelled);
    assert!(terra_git::sidecar::maintenance_after(&failed).is_none());
}

#[test]
fn search_needle_is_the_lowercased_query() {
    assert_eq!(terra_git::history::search_needle("Fix BUG Ärger"), "fix bug ärger");
}
