use terra_git::branches::{
    branch_info, branch_list, checkout_error, checkout_error_for, checkout_percent, overwritten_files,
    pick_push_remote, repo_info, tracking_source, RawBranch, RemoteCandidate,
};

fn raw(name: &str, remote: bool) -> RawBranch {
    RawBranch {
        name: name.into(),
        is_head: false,
        is_remote: remote,
        upstream: None,
        remote_name: if remote { Some("origin".into()) } else { None },
        target_id: None,
        configured_remote: None,
        has_merge: false,
    }
}

#[test]
fn branch_list_sorts_local_before_remote_and_skips_head() {
    let mut gone = raw("feature", false);
    gone.configured_remote = Some("origin".into());
    gone.has_merge = true;
    let list = branch_list(&[
        raw("origin/main", true),
        raw("origin/HEAD", true),
        gone,
        raw("main", false),
    ]);
    let names: Vec<&str> = list.iter().map(|b| b.name.as_str()).collect();
    assert_eq!(names, vec!["feature", "main", "origin/main"]);
    assert!(list[0].upstream_gone);
    assert!(!list[1].upstream_gone);
    assert_eq!(list[2].short_name.as_deref(), Some("main"));
    let mut local_remote = raw("x", false);
    local_remote.configured_remote = Some(".".into());
    local_remote.has_merge = true;
    assert!(!branch_info(&local_remote).unwrap().upstream_gone);
}

#[test]
fn checkout_tracks_the_matching_remote_branch() {
    let cands = vec![
        RemoteCandidate { full: "upstream/dev".into(), remote: Some("upstream".into()) },
        RemoteCandidate { full: "fork/topic".into(), remote: Some("fork".into()) },
    ];
    assert_eq!(tracking_source(&cands, "topic").unwrap(), "fork/topic");
    assert_eq!(tracking_source(&cands, "nope").unwrap_err().code(), "branch_not_found");
    assert_eq!(checkout_percent(5, 10), 50);
    assert_eq!(checkout_percent(5, 0), 0);
    assert_eq!(checkout_percent(30, 10), 100);
}

#[test]
fn overwritten_files_are_sorted_unique_and_capped() {
    let files: Vec<String> = ["b", "a", "b", "c"].iter().map(|s| s.to_string()).collect();
    assert_eq!(overwritten_files(files), vec!["a", "b", "c"]);
    let many: Vec<String> = (0..12).map(|i| format!("f{:02}", 11 - i)).collect();
    let listed = overwritten_files(many);
    assert_eq!(listed.len(), 9);
    assert_eq!(listed[0], "f00");
    assert_eq!(listed[7], "f07");
    assert_eq!(listed[8], "…");
    let conflict = git2::Error::new(git2::ErrorCode::Conflict, git2::ErrorClass::Checkout, "2 conflicts");
    let e = checkout_error(conflict, vec!["x".into()]);
    assert_eq!(e.code(), "checkout_would_overwrite");
    let other = git2::Error::from_str("boom");
    assert_eq!(checkout_error(other, vec![]).code(), "git_error");
}

#[test]
fn checkout_error_for_names_files_only_on_conflict() {
    let files: Vec<String> = ["b", "a", "b"].iter().map(|s| s.to_string()).collect();
    let e = git2::Error::from_str("would overwrite");
    match checkout_error_for(true, e, files.clone()) {
        terra_git::error::GitEngineError::CheckoutWouldOverwrite { files: f } => {
            assert_eq!(f, vec!["a", "b"])
        }
        other => panic!("unexpected {}", other.code()),
    }
    let e = git2::Error::from_str("boom");
    match checkout_error_for(false, e, files) {
        terra_git::error::GitEngineError::Git(x) => assert_eq!(x.message(), "boom"),
        other => panic!("unexpected {}", other.code()),
    }
}

#[test]
fn push_remote_and_repo_info() {
    assert_eq!(pick_push_remote(Some("up"), &[Some("a".into())]), "up");
    assert_eq!(pick_push_remote(Some(""), &[Some("only".into())]), "only");
    assert_eq!(pick_push_remote(None, &[Some("a".into()), Some("b".into())]), "origin");
    assert_eq!(pick_push_remote(None, &[None]), "origin");
    let info = repo_info("/home/u/repo//", "repo".into(), false, Some(Some("main".into())), false);
    assert_eq!(info.path, "/home/u/repo");
    assert_eq!(info.current_branch.as_deref(), Some("main"));
    assert!(!info.history_prepared);
    let empty = repo_info("C:\\r\\", "r".into(), false, None, false);
    assert_eq!(empty.path, "C:\\r");
    assert!(empty.is_empty && empty.history_prepared);
    let detached = repo_info("/r", "r".into(), true, Some(Some("HEAD".into())), true);
    assert_eq!(detached.current_branch, None);
}
