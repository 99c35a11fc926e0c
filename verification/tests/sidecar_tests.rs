//! Sidecar decisions: quoting, hosts, configs, progress, error classification
//! and input checks.

use terra_git::domain::CloneOptions;
use terra_git::sidecar::{stream_log_end, stream_record};
use terra_git::error::GitEngineError;
use terra_git::sidecar::{
    classify_remote_error, clone_fetch, credential_helper_config, detect_default_branch, fetch,
    finish, https_host, insecure_hosts, leading_config, parse_log_record, parse_progress,
    pull_streaming, push_streaming, push_to, reject_remote_option, run_git, select_insecure_configs,
    sequence_editor, set_insecure_tls_hosts, sh_single_quote, validate_branch_name,
    validate_remote_url, ProcessEnd, ProcessOutcome, RemoteSetup,
};

#[test]
fn sh_single_quote_escaped_apostrophe() {
    // An apostrophe becomes '\'' and the rest stays inside '…' — the sh line
    // cannot be escaped this way.
    assert_eq!(
        sh_single_quote("C:/Users/O'Brien/x"),
        r"'C:/Users/O'\''Brien/x'"
    );
    // Without an apostrophe, just wrap it.
    assert_eq!(sh_single_quote("/tmp/plan.txt"), "'/tmp/plan.txt'");
}

#[test]
fn reject_remote_option_rejects_leading_minus() {
    // Option injection: a remote coming from the frontend like
    // "--receive-pack=…" must not pass as a git option.
    assert!(reject_remote_option("--force").is_err());
    assert!(reject_remote_option("-x").is_err());
    // Normal remote names and URLs stay allowed.
    assert!(reject_remote_option("origin").is_ok());
    assert!(reject_remote_option("https://example.com/x.git").is_ok());
}

#[test]
fn https_host_extracts_host_without_userinfo_and_port() {
    assert_eq!(
        https_host("https://git.example.com/group/repo.git").as_deref(),
        Some("git.example.com")
    );
    assert_eq!(
        https_host("https://user@git.example.com:8443/x.git").as_deref(),
        Some("git.example.com")
    );
    assert_eq!(
        https_host("http://192.0.2.10/x.git").as_deref(),
        Some("192.0.2.10")
    );
    // Hosts are case-insensitive → return them lower-cased.
    assert_eq!(
        https_host("https://Git.Example.COM/x").as_deref(),
        Some("git.example.com")
    );
    // SSH uses no TLS → no host for sslVerify.
    assert_eq!(https_host("git@git.example.com:group/repo.git"), None);
    assert_eq!(https_host("ssh://git@git.example.com/x.git"), None);
}

#[test]
fn insecure_configs_only_for_opt_in_hosts_and_host_bound() {
    let urls = vec![
        "https://git.intern.example/group/a.git".to_string(),
        // NOT in the opt-in → stays verified (no config).
        "https://github.com/foo/b.git".to_string(),
        // SSH → no TLS, ignored.
        "git@git.intern.example:group/c.git".to_string(),
        // A second remote to the same host → not duplicated.
        "https://git.intern.example/group/d.git".to_string(),
    ];
    let insecure_hosts = vec!["git.intern.example".to_string()];
    assert_eq!(
        select_insecure_configs(&urls, &insecure_hosts),
        vec!["http.https://git.intern.example/.sslVerify=false".to_string()]
    );
    // Without an opt-in host: nothing disabled.
    assert!(select_insecure_configs(&urls, &[]).is_empty());
}

#[test]
fn leading_config_puts_credential_before_insecure() {
    let none: Option<String> = None;
    assert!(leading_config(&none, &[]).is_empty());

    let cred = Some("credential.helper=!'x' __credential".to_string());
    let insecure = vec!["http.https://h/.sslVerify=false".to_string()];
    assert_eq!(
        leading_config(&cred, &insecure),
        vec![
            "-c".to_string(),
            "credential.helper=!'x' __credential".to_string(),
            "-c".to_string(),
            "http.https://h/.sslVerify=false".to_string(),
        ]
    );
}

#[test]
fn parses_git_progress_lines() {
    let p = parse_progress("Receiving objects:  45% (450/1000), 1.2 MiB | 2.0 MiB/s").unwrap();
    assert_eq!((p.phase.as_str(), p.percent), ("receiving", 45));

    let p = parse_progress("Resolving deltas: 100% (2/2), done.").unwrap();
    assert_eq!((p.phase.as_str(), p.percent), ("resolving", 100));

    // The "remote: " prefix is stripped.
    let p = parse_progress("remote: Compressing objects:   7% (1/14)").unwrap();
    assert_eq!((p.phase.as_str(), p.percent), ("compressing", 7));

    let p = parse_progress("Writing objects:   3% (1/33)").unwrap();
    assert_eq!((p.phase.as_str(), p.percent), ("writing", 3));

    // An unknown phase with a percentage -> "other".
    assert_eq!(parse_progress("Foo bar: 50% (x)").unwrap().phase, "other");
}

#[test]
fn ignores_lines_without_progress() {
    assert_eq!(parse_progress("done."), None);
    assert_eq!(parse_progress("remote: Total 33 (delta 2), reused 0"), None);
    assert_eq!(parse_progress(""), None);
    assert_eq!(parse_progress("Cloning into 'x'..."), None);
}

fn code_of(text: &str) -> Option<&'static str> {
    classify_remote_error(text).map(|(c, _)| c)
}

#[test]
fn classifies_remote_errors() {
    assert_eq!(
        code_of("! [rejected] main -> main (non-fast-forward)"),
        Some("non_fast_forward")
    );
    assert_eq!(
        code_of("! [rejected] main -> main (stale info)"),
        Some("force_lease_stale")
    );
    assert_eq!(
        code_of("fatal: Authentication failed for 'https://host/x.git'"),
        Some("auth_failed")
    );
    assert_eq!(
        code_of("remote: HTTP Basic: Access denied\nfatal: unable to access"),
        Some("forbidden")
    );
    assert_eq!(
        code_of("git@host: Permission denied (publickey)."),
        Some("ssh_auth")
    );
    assert_eq!(code_of("Host key verification failed."), Some("host_key"));
    assert_eq!(
        code_of("fatal: repository 'https://host/x.git' not found"),
        Some("repo_not_found")
    );
    assert_eq!(
        code_of("fatal: The current branch main has no upstream branch."),
        Some("no_upstream")
    );
    assert_eq!(
        code_of("fatal: Could not resolve host: gitlab.invalid"),
        Some("network")
    );
    assert_eq!(code_of("Everything up to date, no error"), None);
}

#[test]
fn prioritizes_forbidden_over_generic_403() {
    // Contains both "403" and "pre-receive hook declined" -> forbidden.
    assert_eq!(
        code_of("remote: error: GH006: pre-receive hook declined\nHTTP 403"),
        Some("forbidden")
    );
}

#[test]
fn incidental_403_in_progress_or_sha_is_not_forbidden() {
    // A substring "403" in progress counters or object names must not
    // classify a transfer abort as "forbidden".
    assert_eq!(code_of("Receiving objects:  3% (1403/44000)"), None);
    assert_eq!(
        code_of("Receiving objects:  3% (1403/44000)\nfatal: early EOF"),
        None
    );
    // A SHA prefix directly after "error: " — not an HTTP status line.
    assert_eq!(code_of("error: 403f9ab is not a valid object name"), None);
}

#[test]
fn real_403_lines_stay_forbidden() {
    assert_eq!(
        code_of(
            "fatal: unable to access 'https://host/x.git/': \
             The requested URL returned error: 403"
        ),
        Some("forbidden")
    );
    assert_eq!(
        code_of("error: RPC failed; HTTP 403 curl 22 The requested URL returned error: 403"),
        Some("forbidden")
    );
    assert_eq!(code_of("remote: 403 Forbidden"), Some("forbidden"));
}

#[test]
fn clone_url_rejects_injection() {
    // Option injection
    assert!(validate_remote_url("--upload-pack=calc.exe").is_err());
    assert!(validate_remote_url("-x").is_err());
    // Code-execution transports
    assert!(validate_remote_url("ext::sh -c whoami").is_err());
    assert!(validate_remote_url("EXT::sh -c whoami").is_err());
    assert!(validate_remote_url("fd::17").is_err());
    // Empty
    assert!(validate_remote_url("   ").is_err());
}

#[test]
fn clone_url_accepts_valid_ones() {
    assert!(validate_remote_url("https://github.com/x/y.git").is_ok());
    assert!(validate_remote_url("http://192.0.2.10/a/b.git").is_ok());
    assert!(validate_remote_url("git@192.0.2.10:acme/terra-git.git").is_ok());
    assert!(validate_remote_url("ssh://git@host:22/x/y.git").is_ok());
    assert!(validate_remote_url("file:///srv/repos/x.git").is_ok());
}

#[test]
fn insecure_hosts_state_beats_fallback() {
    let mut state: Option<Vec<String>> = None;
    // Never set -> the fallback value (trimmed, lower-cased, no empties).
    assert_eq!(
        insecure_hosts(&state, Some("env.example, ,Two.Example")),
        vec!["env.example", "two.example"]
    );
    // The set state wins, normalized as well.
    set_insecure_tls_hosts(&mut state, vec![" Git.Intern.Example ".into(), String::new()]);
    assert_eq!(
        insecure_hosts(&state, Some("env.example")),
        vec!["git.intern.example"]
    );
    // An empty list means "no insecure hosts": no fallback any more.
    set_insecure_tls_hosts(&mut state, Vec::new());
    assert!(insecure_hosts(&state, Some("env.example")).is_empty());
    assert!(insecure_hosts(&None, None).is_empty());
}

#[test]
fn credential_helper_only_with_a_path_and_properly_quoted() {
    assert_eq!(credential_helper_config(None), None);
    assert_eq!(
        credential_helper_config(Some(r"C:\Program Files\terra-git\tg-app.exe")).as_deref(),
        Some("credential.helper=!'C:/Program Files/terra-git/tg-app.exe' __credential")
    );
    // Single quote in the path: rather no injection than broken quoting.
    assert_eq!(credential_helper_config(Some("C:/it's/tg-app.exe")), None);
    assert_eq!(credential_helper_config(Some("")), None);
}

#[test]
fn progress_percent_is_capped_and_bounded() {
    let p = parse_progress("Counting objects: 250% (1/1)").unwrap();
    assert_eq!((p.phase.as_str(), p.percent), ("counting", 100));
    assert_eq!(parse_progress("Counting objects: 256% (1/1)"), None);
    let p = parse_progress("  remote:   Enumerating objects: 12% x").unwrap();
    assert_eq!((p.phase.as_str(), p.percent), ("enumerating", 12));
}

#[test]
fn branch_names_for_cloning() {
    assert!(validate_branch_name("main").is_ok());
    assert!(validate_branch_name("feature/x-1").is_ok());
    for bad in ["", "-x", "a..b", "a b", "a:b", "a~1", "a^", "a?", "a*", "a[", "a\\b", "a\u{7f}", "a\tb"] {
        let e = validate_branch_name(bad).unwrap_err();
        assert_eq!(e.code(), "sidecar_failed");
        assert_eq!(e.message(), format!("git command failed: Invalid branch name: {bad}"));
    }
}

#[test]
fn log_records_are_parsed() {
    let rec = "0123456789abcdef\u{1f}Ann\u{1f}ann@x\u{1f}1700000000\u{1f}aaaaaaa bbbbbbb\u{1f}Subject \u{1f} rest";
    let c = parse_log_record(rec).unwrap();
    assert_eq!(c.id, "0123456789abcdef");
    assert_eq!(c.short_id, "01234567");
    assert_eq!(c.author_name, "Ann");
    assert_eq!(c.author_email, "ann@x");
    assert_eq!(c.time, 1700000000);
    assert_eq!(c.parent_ids, vec!["aaaaaaa", "bbbbbbb"]);
    assert_eq!(c.summary, "Subject \u{1f} rest");
    // Without a subject field the subject is empty; a root commit has no parents.
    let c = parse_log_record("abcdef0\u{1f}A\u{1f}a@x\u{1f}-5\u{1f}").unwrap();
    assert_eq!(c.summary, "");
    assert!(c.parent_ids.is_empty());
    assert_eq!(c.time, -5);
    // Short or non-hex ids, bad times and missing fields are rejected.
    assert!(parse_log_record("abc\u{1f}A\u{1f}a\u{1f}1\u{1f}").is_none());
    assert!(parse_log_record("abcdefg\u{1f}A\u{1f}a\u{1f}1\u{1f}").is_none());
    assert!(parse_log_record("abcdef0\u{1f}A\u{1f}a\u{1f}x\u{1f}").is_none());
    assert!(parse_log_record("abcdef0\u{1f}A\u{1f}a\u{1f}1").is_none());
}

fn setup() -> RemoteSetup {
    RemoteSetup {
        credential_helper: Some("credential.helper=!'x' __credential".to_string()),
        insecure_configs: vec!["http.https://h/.sslVerify=false".to_string()],
    }
}

#[test]
fn remote_command_lines() {
    let f = fetch(&setup());
    assert_eq!(
        f.args,
        vec![
            "-c",
            "credential.helper=!'x' __credential",
            "-c",
            "http.https://h/.sslVerify=false",
            "fetch",
            "--prune",
            "--progress"
        ]
    );
    assert!(f.remote && f.streaming && f.trim);
    assert_eq!(f.timeout_secs, 3600);
    let empty = RemoteSetup { credential_helper: None, insecure_configs: Vec::new() };
    assert_eq!(pull_streaming(&empty, true).args, vec!["pull", "--prune", "--progress"]);
    assert_eq!(
        push_streaming(&empty, "origin", Some("main"), false, true).unwrap().args,
        vec!["push", "--progress", "--force-with-lease", "--set-upstream", "--", "origin", "main"]
    );
    assert_eq!(
        push_streaming(&empty, "-x", Some("main"), true, false).unwrap().args,
        vec!["push", "--progress"]
    );
    assert!(push_streaming(&empty, "--receive-pack=x", Some("main"), false, false).is_err());
    assert_eq!(
        push_to(&empty, "backup", None, false).unwrap().args,
        vec!["push", "--progress", "--", "backup", "HEAD"]
    );
    assert!(push_to(&empty, "-x", None, false).is_err());
    let opts = CloneOptions { depth: Some(0), blobless: true, branch: Some("dev".into()) };
    assert_eq!(
        clone_fetch(&empty, &opts).unwrap().args,
        vec![
            "fetch",
            "origin",
            "--progress",
            "--depth",
            "1",
            "--filter=blob:none",
            "+refs/heads/dev:refs/remotes/origin/dev"
        ]
    );
    let bad = CloneOptions { depth: None, blobless: false, branch: Some("a b".into()) };
    assert!(clone_fetch(&empty, &bad).is_err());
    let none = CloneOptions { depth: None, blobless: false, branch: Some(String::new()) };
    assert_eq!(clone_fetch(&empty, &none).unwrap().args, vec!["fetch", "origin", "--progress"]);
}

#[test]
fn finishing_a_run() {
    let cmd = run_git(&["status", "--porcelain"]);
    let ok = finish(
        &cmd,
        ProcessOutcome {
            end: ProcessEnd::Exited { success: true, code: Some(0) },
            stdout: " out\n".into(),
            stderr: "err \n".into(),
        },
    );
    assert_eq!(ok.unwrap(), "out\nerr");
    let failed = finish(
        &cmd,
        ProcessOutcome {
            end: ProcessEnd::Exited { success: false, code: Some(128) },
            stdout: String::new(),
            stderr: " \n".into(),
        },
    )
    .unwrap_err();
    assert_eq!(failed.code(), "sidecar_failed");
    assert_eq!(
        failed.message(),
        "git command failed: git status --porcelain failed (exit code Some(128))"
    );
    let timed_out = finish(
        &cmd,
        ProcessOutcome { end: ProcessEnd::TimedOut, stdout: String::new(), stderr: String::new() },
    )
    .unwrap_err();
    assert_eq!(
        timed_out.message(),
        "git command failed: git status --porcelain aborted after 120 s (timeout) — check the network/remote"
    );
    let cancelled = finish(
        &cmd,
        ProcessOutcome { end: ProcessEnd::Cancelled, stdout: String::new(), stderr: String::new() },
    )
    .unwrap_err();
    assert!(matches!(cancelled, GitEngineError::Cancelled));
    // A remote operation's failure is classified.
    let f = fetch(&RemoteSetup { credential_helper: None, insecure_configs: Vec::new() });
    let e = finish(
        &f,
        ProcessOutcome {
            end: ProcessEnd::Exited { success: false, code: Some(1) },
            stdout: String::new(),
            stderr: "fatal: Could not resolve host: x".into(),
        },
    )
    .unwrap_err();
    assert_eq!(e.code(), "network");
}

#[test]
fn default_branch_from_origin_head() {
    assert_eq!(detect_default_branch("origin/main\n").as_deref(), Some("main"));
    assert_eq!(detect_default_branch("origin/"), None);
    assert_eq!(detect_default_branch("origin/-x"), None);
    assert_eq!(detect_default_branch("upstream/main"), None);
}

#[test]
fn sequence_editor_copies_plan_and_messages() {
    assert_eq!(sequence_editor(r"C:\tmp\plan.txt", &[]), "cp 'C:/tmp/plan.txt'");
    let msgs = vec![("/tmp/m1".to_string(), "msg-1".to_string())];
    assert_eq!(
        sequence_editor("/tmp/O'Brien/plan", &msgs),
        r#"f() { cp -p '/tmp/O'\''Brien/plan' "$1" && cp -p '/tmp/m1' "${1%/*}/msg-1"; }; f"#
    );
}

#[test]
fn streamed_log_records_and_end() {
    assert!(stream_record("\n\r\n").is_none());
    let c = stream_record("\nabc1234\u{1f}Ann\u{1f}a@x\u{1f}17\u{1f}p1 p2\u{1f}Sub\u{1f}ject\n").unwrap();
    assert_eq!(c.id, "abc1234");
    assert_eq!(c.summary, "Sub\u{1f}ject");
    assert_eq!(c.parent_ids, vec!["p1", "p2"]);
    assert!(stream_log_end(false, true, false, Some(1)).is_ok());
    assert_eq!(
        stream_log_end(false, false, false, Some(128)).unwrap_err().message(),
        "git command failed: git log failed (exit code Some(128))"
    );
    assert_eq!(
        stream_log_end(true, true, false, None).unwrap_err().message(),
        "git command failed: git log aborted after 120 s without data (hung?)"
    );
}
