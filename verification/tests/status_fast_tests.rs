//! Porcelain v2 status parsing.

use terra_git::domain::ChangeKind;
use terra_git::status_fast::{parse_porcelain_v2, status_args};

#[test]
fn parses_porcelain_v2_records() {
    // Synthetic output: header, modified, renamed, untracked, conflicted
    // and a submodule (which has to be filtered out).
    let raw = "# branch.oid 1234567890abcdef\0\
               # branch.head main\0\
               # branch.upstream origin/main\0\
               # branch.ab +2 -1\0\
               1 M. N... 100644 100644 100644 abc def stag.txt\0\
               1 .M N... 100644 100644 100644 abc def work.txt\0\
               1 MM N... 100644 100644 100644 abc def both.txt\0\
               1 .M S.M. 160000 160000 160000 abc def submodule\0\
               2 R. N... 100644 100644 100644 abc def R100 new.txt\0old.txt\0\
               ? unknown with spaces.txt\0\
               u UU N... 100644 100644 100644 100644 a b c conflict.txt\0";
    let st = parse_porcelain_v2(raw);

    assert_eq!(st.branch.as_deref(), Some("main"));
    assert_eq!(st.upstream.as_deref(), Some("origin/main"));
    assert_eq!(st.ahead, 2);
    assert_eq!(st.behind, 1);

    let staged: Vec<_> = st.staged.iter().map(|e| e.path.as_str()).collect();
    assert_eq!(staged, vec!["both.txt", "new.txt", "stag.txt"]);
    let renamed = st.staged.iter().find(|e| e.path == "new.txt").unwrap();
    assert_eq!(renamed.kind, ChangeKind::Renamed);
    assert_eq!(renamed.orig_path.as_deref(), Some("old.txt"));

    let unstaged: Vec<_> = st
        .unstaged
        .iter()
        .map(|e| (e.path.as_str(), e.kind))
        .collect();
    assert_eq!(
        unstaged,
        vec![
            ("both.txt", ChangeKind::Modified),
            ("conflict.txt", ChangeKind::Conflicted),
            ("unknown with spaces.txt", ChangeKind::Untracked),
            ("work.txt", ChangeKind::Modified),
        ]
    );
}

#[test]
fn status_args_contain_no_optional_locks() {
    let args = status_args();
    assert!(
        args.contains(&"--no-optional-locks"),
        "the status read has to set --no-optional-locks, otherwise git takes index.lock \
         and rewrites the index (watcher self-trigger on large worktrees)"
    );
    // Has to come before the subcommand as a main option.
    let no_lock = args.iter().position(|a| *a == "--no-optional-locks");
    let status = args.iter().position(|a| *a == "status");
    assert!(
        no_lock < status,
        "--no-optional-locks has to come before `status`"
    );
}

#[test]
fn unborn_and_detached_return_no_branch() {
    let unborn = parse_porcelain_v2("# branch.oid (initial)\0# branch.head main\0");
    assert_eq!(unborn.branch, None);
    let detached = parse_porcelain_v2("# branch.oid abc\0# branch.head (detached)\0");
    assert_eq!(detached.branch, None);
}

#[test]
fn intent_to_add_and_copies_are_classified() {
    let raw = "1 .A N... 000000 000000 100644 0 0 new.txt\0\
               2 C. N... 100644 100644 100644 abc abc C75 copy.txt\0src.txt\0\
               1 T. N... 100644 120000 120000 abc def link\0";
    let st = parse_porcelain_v2(raw);
    assert_eq!(st.unstaged.len(), 1);
    assert_eq!(st.unstaged[0].kind, ChangeKind::Untracked);
    assert_eq!(st.staged.len(), 2);
    assert_eq!(st.staged[0].path, "copy.txt");
    assert_eq!(st.staged[0].kind, ChangeKind::Renamed);
    assert_eq!(st.staged[0].orig_path.as_deref(), Some("src.txt"));
    assert_eq!(st.staged[1].kind, ChangeKind::Typechange);
    assert_eq!(st.staged[1].orig_path, None);
}

#[test]
fn malformed_records_are_skipped() {
    let raw = "1 M. N...\0u UU S... 1 2 3 4 5 6 7 sub\0?x\0# branch.ab +x -99999999999999999999999\0";
    let st = parse_porcelain_v2(raw);
    assert!(st.staged.is_empty());
    assert!(st.unstaged.is_empty());
    assert_eq!(st.ahead, 0);
    assert_eq!(st.behind, 0);
}

#[test]
fn equal_paths_keep_their_order_and_sorting_is_by_code_point() {
    let raw = "? b\0? B\0? a\0? \u{e4}\0";
    let st = parse_porcelain_v2(raw);
    let paths: Vec<_> = st.unstaged.iter().map(|e| e.path.as_str()).collect();
    assert_eq!(paths, vec!["B", "a", "b", "\u{e4}"]);
}
