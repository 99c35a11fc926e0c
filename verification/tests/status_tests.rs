use terra_git::domain::{ChangeKind, RepoOpState, RepoStatus};
use terra_git::status::{status_from_entries, with_unpushed, RawStatus, SidePaths, StatusFlags};

fn flags() -> StatusFlags {
    StatusFlags {
        conflicted: false,
        index_new: false,
        index_modified: false,
        index_deleted: false,
        index_renamed: false,
        index_typechange: false,
        wt_new: false,
        wt_modified: false,
        wt_deleted: false,
        wt_renamed: false,
        wt_typechange: false,
    }
}

fn raw(path: &str, f: StatusFlags) -> RawStatus {
    RawStatus { flags: f, path: path.to_string(), head_to_index: None, index_to_workdir: None }
}

#[test]
fn libgit2_flags_become_sorted_lists() {
    let mut renamed = flags();
    renamed.index_renamed = true;
    renamed.wt_modified = true;
    let mut r = raw("z-new", renamed);
    r.head_to_index = Some(SidePaths { path: "z-new".into(), orig_path: Some("a-old".into()) });
    let mut conflicted = flags();
    conflicted.conflicted = true;
    conflicted.index_modified = true;
    let mut untracked = flags();
    untracked.wt_new = true;
    let mut added = flags();
    added.index_new = true;
    added.index_modified = true;
    let st = status_from_entries(
        &[r, raw("m", conflicted), raw("b", untracked), raw("c", added)],
        Some("main".into()),
        None,
        0,
        0,
        RepoOpState::Merge,
    );
    let staged: Vec<(&str, ChangeKind)> = st.staged.iter().map(|e| (e.path.as_str(), e.kind)).collect();
    assert_eq!(staged, vec![("c", ChangeKind::Added), ("z-new", ChangeKind::Renamed)]);
    assert_eq!(st.staged[1].orig_path.as_deref(), Some("a-old"));
    let unstaged: Vec<(&str, ChangeKind)> =
        st.unstaged.iter().map(|e| (e.path.as_str(), e.kind)).collect();
    assert_eq!(
        unstaged,
        vec![
            ("b", ChangeKind::Untracked),
            ("m", ChangeKind::Conflicted),
            ("z-new", ChangeKind::Modified)
        ]
    );
    assert_eq!(st.op_state, RepoOpState::Merge);
}

#[test]
fn ahead_without_upstream_counts_unpushed_commits() {
    let st = RepoStatus {
        staged: vec![],
        unstaged: vec![],
        branch: Some("main".into()),
        upstream: None,
        ahead: 0,
        behind: 0,
        op_state: RepoOpState::Clean,
    };
    assert_eq!(with_unpushed(st.clone(), Some(3)).ahead, 3);
    assert_eq!(with_unpushed(st.clone(), None).ahead, 0);
    let mut with_upstream = st;
    with_upstream.upstream = Some("origin/main".into());
    with_upstream.ahead = 1;
    assert_eq!(with_unpushed(with_upstream, Some(7)).ahead, 1);
}
