use terra_git::ops::{
    backup_ref_name, is_forbidden_config_key, mergetool_args, parse_backup_ref_name,
    valid_mergetool_name, BACKUP_REF_PREFIX,
};
use terra_git::patch::{build_partial_hunk, split_patch};

#[test]
fn split_patch_separates_head_and_hunks() {
    let patch = "diff --git a/x b/x\n--- a/x\n+++ b/x\n@@ -1,2 +1,2 @@\n-a\n+b\n c\n@@ -5,1 +5,2 @@\n d\n+e\n";
    let (header, hunks) = split_patch(patch);
    assert!(header.starts_with("diff --git"));
    assert_eq!(hunks.len(), 2);
    assert!(hunks[0].starts_with("@@ -1,2"));
    assert!(hunks[1].starts_with("@@ -5,1"));
}

#[test]
fn build_partial_hunk_stage_selected() {
    let hunk = "@@ -1,2 +1,3 @@\n-old\n+new1\n+new2\n end\n";
    let partial = build_partial_hunk(hunk, &[1], false).unwrap();
    assert!(partial.contains(" old"));
    assert!(partial.contains("+new1"));
    assert!(!partial.contains("+new2"));
    assert!(partial.starts_with("@@ -1,2 +1,3 @@"));
}

#[test]
fn build_partial_hunk_unstage_selected() {
    let hunk = "@@ -1,2 +1,3 @@\n-old\n+new1\n+new2\n end\n";
    let partial = build_partial_hunk(hunk, &[1], true).unwrap();
    assert!(!partial.contains("-old"));
    assert!(partial.contains("+new1"));
    assert!(partial.contains(" new2"));
}

#[test]
fn config_denylist_blocks_command_keys_allows_harmless() {
    for ok in [
        "user.name",
        "user.email",
        "commit.gpgsign",
        "core.autocrlf",
        "pull.rebase",
        "branch.main.remote",
    ] {
        assert!(!is_forbidden_config_key(ok), "{ok} should be allowed");
    }
    for bad in [
        "core.sshCommand",
        "CORE.PAGER",
        "core.editor",
        "core.hooksPath",
        "core.fsmonitor",
        "core.gitProxy",
        "credential.helper",
        "alias.co",
        "filter.lfs.clean",
        "filter.lfs.smudge",
        "mergetool.mine.cmd",
        "difftool.x.cmd",
        "diff.foo.command",
        "merge.bar.driver",
        "gpg.program",
        "init.templateDir",
        "uploadpack.packObjectsHook",
        "diff.external",
        "core.alternateRefsCommand",
        "gpg.ssh.defaultKeyCommand",
        "pager.log",
        "pager.diff",
        "include.path",
        "includeIf.gitdir:~/work/.path",
        "  diff.external  ",
        "remote.origin.uploadpack",
        "imap.tunnel",
        "mergetool.meld.path",
        "difftool.x.path",
        "diff.foo.textconv",
        "url.https://evil/.insteadOf",
        "url.https://evil/.pushInsteadOf",
    ] {
        assert!(is_forbidden_config_key(bad), "{bad} should be forbidden");
    }
}

#[test]
fn mergetool_name_validation_blocks_traversal() {
    for ok in ["meld", "vimdiff3", "p4merge", "my-tool.v2", "kdiff3", "bc_4"] {
        assert!(valid_mergetool_name(ok), "{ok} should be allowed");
    }
    for bad in [
        "",
        "../../evil.sh",
        "..\\evil",
        "sub/tool",
        "a b",
        "x=y",
        "tool;rm",
        "$(id)",
        &"a".repeat(65),
    ] {
        assert!(!valid_mergetool_name(bad), "{bad:?} should be forbidden");
    }
}

#[test]
fn mergetool_args_force_trusted_values() {
    assert_eq!(
        mergetool_args("evil", None, None, ":(literal)a.txt"),
        vec![
            "-c",
            "mergetool.evil.cmd=",
            "-c",
            "mergetool.evil.path=",
            "mergetool",
            "--tool=evil",
            "--no-prompt",
            "--",
            ":(literal)a.txt",
        ]
    );
    let args = mergetool_args(
        "meld",
        Some("meld --diff a=b $LOCAL"),
        Some("/usr/bin/meld"),
        ":(literal)x",
    );
    assert!(args.contains(&"mergetool.meld.cmd=meld --diff a=b $LOCAL".to_string()));
    assert!(args.contains(&"mergetool.meld.path=/usr/bin/meld".to_string()));
    assert!(args.contains(&"--tool=meld".to_string()));
}

#[test]
fn parse_backup_ref_name_old_and_new() {
    assert_eq!(parse_backup_ref_name("squash-1690000000-5"), ("squash".to_string(), 1690000000));
    assert_eq!(
        parse_backup_ref_name("rebase-interactive-1690000000-0"),
        ("rebase-interactive".to_string(), 1690000000)
    );
    assert_eq!(parse_backup_ref_name("squash-1690000000"), ("squash".to_string(), 1690000000));
    assert_eq!(
        parse_backup_ref_name("rebase-interactive-1690000000"),
        ("rebase-interactive".to_string(), 1690000000)
    );
    assert_eq!(parse_backup_ref_name("restore-42"), ("restore".to_string(), 42));
}

#[test]
fn build_partial_hunk_takes_new_start_as_reverse_anchor() {
    let hunk = "@@ -10,2 +14,3 @@\n-old\n+new1\n+new2\n end\n";
    let partial = build_partial_hunk(hunk, &[1], true).unwrap();
    assert!(
        partial.starts_with("@@ -10,2 +14,3 @@"),
        "Header has to carry +new_start (14), was: {}",
        partial.lines().next().unwrap_or("")
    );
}

#[test]
fn partial_hunk_keeps_only_the_selected_changes() {
    let hunk = "@@ -1,4 +1,4 @@\n ctx\n-old1\n-old2\n+new1\n+new2\n";
    for reverse in [false, true] {
        let partial = build_partial_hunk(hunk, &[2, 3], reverse).unwrap();
        let body: Vec<&str> = partial.lines().skip(1).collect();
        let changes: Vec<&str> =
            body.iter().copied().filter(|l| l.starts_with('+') || l.starts_with('-')).collect();
        assert_eq!(changes, vec!["-old2", "+new1"]);
    }
}

#[test]
fn backup_name_reads_back_its_operation_and_time() {
    for op in ["squash", "rebase-interactive", "restore"] {
        let name = backup_ref_name(op, 1_700_000_000, 42);
        let short = name.strip_prefix(BACKUP_REF_PREFIX).unwrap();
        assert_eq!(parse_backup_ref_name(short), (op.to_string(), 1_700_000_000));
    }
}
