use terra_git::diff::{DiffBuilder, MAX_DIFF_LINES_PER_FILE};
use terra_git::domain::LineKind;

#[test]
fn builder_groups_lines_into_hunks_and_files() {
    let mut b = DiffBuilder::new();
    assert!(b.start_file("a.txt".into(), None, false, Some(3), Some(4)).is_none());
    b.hunk("@@ -1,1 +1,2 @@  \n");
    b.line(' ', Some(1), Some(1), "same\n");
    b.line('+', None, Some(2), "new\r\n");
    b.line('>', None, None, "ignored");
    let first = b.start_file("b.bin".into(), Some("old.bin".into()), false, None, None).unwrap();
    assert_eq!(first.path, "a.txt");
    assert_eq!(first.hunks.len(), 1);
    assert_eq!(first.hunks[0].header, "@@ -1,1 +1,2 @@");
    assert_eq!(first.hunks[0].lines.len(), 2);
    assert_eq!(first.hunks[0].lines[1].kind, LineKind::Addition);
    assert_eq!(first.hunks[0].lines[1].content, "new");
    assert!(!first.truncated);
    b.line('B', None, None, "");
    let second = b.finish().unwrap();
    assert!(second.is_binary);
    assert_eq!(second.old_path.as_deref(), Some("old.bin"));
}

#[test]
fn builder_truncates_at_the_line_cap() {
    let mut b = DiffBuilder::new();
    b.start_file("big".into(), None, false, None, None);
    b.hunk("@@ -1 +1 @@");
    for i in 0..(MAX_DIFF_LINES_PER_FILE + 10) {
        b.line('-', Some(i as u32), None, "x");
    }
    b.hunk("@@ -9 +9 @@");
    let f = b.finish().unwrap();
    assert!(f.truncated);
    assert_eq!(f.hunks.len(), 1);
    assert_eq!(f.hunks[0].lines.len(), MAX_DIFF_LINES_PER_FILE);
}
