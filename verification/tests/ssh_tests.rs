use terra_git::ssh::{
    bare_host_of, check_host, expected_host_form, fingerprint_from_output, generate_key_check,
    generated_key, host_fingerprints, key_from_pub, key_paths, keygen_args, keygen_failure,
    keyscan_args, needs_line_end, parse_fingerprint_line, parse_pub_line, redact_args,
    scanned_lines, sort_keys, tool_missing, tool_timeout, trust_host_lines, valid_host,
    valid_key_name, validate_known_hosts_lines,
};

#[test]
fn key_name_validation_blocks_traversal_and_options() {
    assert!(valid_key_name("id_ed25519"));
    assert!(valid_key_name("work.key-1"));
    assert!(!valid_key_name(""));
    assert!(!valid_key_name("-x"));
    assert!(!valid_key_name("../evil"));
    assert!(!valid_key_name("a/b"));
    assert!(!valid_key_name("a\\b"));
    assert!(!valid_key_name("bad name"));
}

#[test]
fn key_paths_rejects_invalid_names() {
    assert_eq!(key_paths("-x").unwrap_err().code(), "invalid_key_name");
    assert_eq!(key_paths("../evil").unwrap_err().code(), "invalid_key_name");
    assert_eq!(key_paths("a/b").unwrap_err().code(), "invalid_key_name");
    assert_eq!(key_paths("a\\b").unwrap_err().code(), "invalid_key_name");
    assert_eq!(key_paths("").unwrap_err().code(), "invalid_key_name");
    assert_eq!(key_paths(".").unwrap_err().code(), "invalid_key_name");
    assert_eq!(key_paths("..").unwrap_err().code(), "invalid_key_name");
    assert_eq!(key_paths("...").unwrap_err().code(), "invalid_key_name");
}

#[test]
fn key_paths_builds_private_and_pub_path() {
    if let Ok((priv_p, pub_p)) = key_paths("work-1") {
        assert_eq!(priv_p, "work-1");
        assert_eq!(pub_p, "work-1.pub");
    } else {
        panic!("a valid name has paths");
    }
}

#[test]
fn host_validation_blocks_options_and_metacharacters() {
    assert!(valid_host("github.com"));
    assert!(valid_host("192.0.2.10"));
    assert!(valid_host("[2001:db8::1]"));
    assert!(!valid_host(""));
    assert!(!valid_host("-oProxyCommand=calc"));
    assert!(!valid_host("a b"));
    assert!(!valid_host("a;b"));
}

#[test]
fn pub_line_is_split() {
    let (t, c) = parse_pub_line("ssh-ed25519 AAAAC3Nz user@host").unwrap();
    assert_eq!(t, "ssh-ed25519");
    assert_eq!(c, "user@host");
    let (t2, c2) = parse_pub_line("ssh-rsa AAAAB3").unwrap();
    assert_eq!(t2, "ssh-rsa");
    assert_eq!(c2, "");
}

#[test]
fn redact_hides_passphrases_after_n_and_p() {
    let red = redact_args(&["-t", "ed25519", "-f", "/k", "-C", "comment", "-N", "secret"]);
    assert_eq!(red, vec!["-t", "ed25519", "-f", "/k", "-C", "comment", "-N", "***"]);
    let red = redact_args(&["-p", "-P", "old", "-N", "new", "-f", "/k"]);
    assert_eq!(red, vec!["-p", "-P", "***", "-N", "***", "-f", "/k"]);
}

#[test]
fn redact_leaves_harmless_args_and_edges_intact() {
    assert_eq!(redact_args(&["-lf", "/x.pub"]), vec!["-lf", "/x.pub"]);
    assert_eq!(redact_args(&["-N"]), vec!["-N"]);
    assert_eq!(redact_args(&["-N", "-P", "x"]), vec!["-N", "***", "x"]);
}

#[test]
fn fingerprint_line_is_split() {
    let (sha, t) = parse_fingerprint_line("256 SHA256:abc123 user@host (ED25519)").unwrap();
    assert_eq!(sha, "SHA256:abc123");
    assert_eq!(t, "ED25519");
}

#[test]
fn expected_host_form_with_and_without_port() {
    assert_eq!(expected_host_form("github.com", None), "github.com");
    assert_eq!(expected_host_form("github.com", Some(2222)), "[github.com]:2222");
    assert_eq!(expected_host_form("2001:db8::1", Some(22)), "[2001:db8::1]:22");
}

#[test]
fn bare_host_from_known_hosts_form() {
    assert_eq!(bare_host_of("github.com"), "github.com");
    assert_eq!(bare_host_of("[github.com]:2222"), "github.com");
    assert_eq!(bare_host_of("[2001:db8::1]:22"), "2001:db8::1");
}

#[test]
fn keyscan_args_built_with_port() {
    let args = keyscan_args("example.org", Some(2222));
    assert_eq!(args, vec!["-T", "5", "-p", "2222", "example.org"]);
    assert!(args.iter().any(|a| a == "-p"));
    assert!(args.iter().any(|a| a == "2222"));
    assert_eq!(expected_host_form("example.org", Some(2222)), "[example.org]:2222");
}

#[test]
fn keyscan_args_without_port_have_no_p() {
    let args = keyscan_args("example.org", None);
    assert_eq!(args, vec!["-T", "5", "example.org"]);
    assert!(!args.iter().any(|a| a == "-p"));
}

#[test]
fn wildcard_line_is_rejected() {
    let err = validate_known_hosts_lines("* ssh-ed25519 AAAAC3Nz", "github.com")
        .expect_err("a wildcard line has to be rejected");
    assert_eq!(err.code(), "ssh_untrusted_line");
}

#[test]
fn matching_host_line_is_accepted() {
    let out = validate_known_hosts_lines("github.com ssh-ed25519 AAAAC3Nz", "github.com").unwrap();
    assert_eq!(out, vec!["github.com ssh-ed25519 AAAAC3Nz"]);
}

#[test]
fn foreign_host_is_rejected() {
    let err = validate_known_hosts_lines("evil.com ssh-ed25519 AAAAC3Nz", "github.com")
        .expect_err("a line for a foreign host has to be rejected");
    assert_eq!(err.code(), "ssh_untrusted_line");
}

#[test]
fn cert_authority_marker_is_rejected() {
    let err = validate_known_hosts_lines("@cert-authority github.com ssh-ed25519 AAAAC3Nz", "github.com")
        .expect_err("@cert-authority has to be rejected");
    assert_eq!(err.code(), "ssh_untrusted_line");
}

#[test]
fn hashed_line_is_rejected() {
    let err = validate_known_hosts_lines("|1|abcd=|efgh= ssh-ed25519 AAAAC3Nz", "github.com")
        .expect_err("a hashed |1| line has to be rejected");
    assert_eq!(err.code(), "ssh_untrusted_line");
}

#[test]
fn question_mark_pattern_is_rejected() {
    let err = validate_known_hosts_lines("git?ub.com ssh-ed25519 AAAAC3Nz", "github.com")
        .expect_err("a host pattern (?) has to be rejected");
    assert_eq!(err.code(), "ssh_untrusted_line");
}

#[test]
fn comments_only_yield_an_error() {
    let err = validate_known_hosts_lines("# just a comment\n\n", "github.com")
        .expect_err("no valid line -> error");
    assert_eq!(err.code(), "ssh_untrusted_line");
}

#[test]
fn port_form_binds_bracket_and_bare_host() {
    let expected = "[example.org]:2222";
    let out = validate_known_hosts_lines(
        "[example.org]:2222 ssh-ed25519 AAAAC3Nz\nexample.org ssh-rsa AAAAB3",
        expected,
    )
    .unwrap();
    assert_eq!(out.len(), 2);
}

#[test]
fn comma_host_list_every_part_must_match() {
    let err = validate_known_hosts_lines("github.com,evil.com ssh-ed25519 AAAAC3Nz", "github.com")
        .expect_err("a mixed host list has to be rejected");
    assert_eq!(err.code(), "ssh_untrusted_line");
}

#[test]
fn known_hosts_lines_are_trimmed_and_case_insensitive() {
    let out = validate_known_hosts_lines(
        "  GitHub.COM ssh-ed25519 AAAAC3Nz  \r\n# comment\n\ngithub.com ssh-rsa AAAAB3\n",
        "github.com",
    )
    .unwrap();
    assert_eq!(out, vec!["GitHub.COM ssh-ed25519 AAAAC3Nz", "github.com ssh-rsa AAAAB3"]);
}

#[test]
fn trusting_a_host_appends_only_bound_lines() {
    let (form, text) = trust_host_lines("example.org", Some(2222), "[example.org]:2222 ssh-ed25519 K\n")
        .unwrap();
    assert_eq!(form, "[example.org]:2222");
    assert_eq!(text, "[example.org]:2222 ssh-ed25519 K\n");
    let err = trust_host_lines("github.com", None, "* ssh-ed25519 AAAAC3Nz").unwrap_err();
    assert_eq!(err.code(), "ssh_untrusted_line");
    let err = trust_host_lines("-oProxyCommand=x", None, "x y z").unwrap_err();
    assert_eq!(err.code(), "invalid_host");
    assert!(needs_line_end(b"a"));
    assert!(!needs_line_end(b"a\n"));
    assert!(!needs_line_end(b""));
}

#[test]
fn keys_are_read_sorted_and_generated() {
    let a = key_from_pub("b".to_string(), "  ssh-ed25519 AAA me@x \n", "SHA256:1".to_string()).unwrap();
    assert_eq!(a.key_type, "ssh-ed25519");
    assert_eq!(a.comment, "me@x");
    assert_eq!(a.public_key, "ssh-ed25519 AAA me@x");
    assert!(key_from_pub("c".to_string(), "garbage", String::new()).is_none());
    let b = key_from_pub("a".to_string(), "ssh-rsa BBB", String::new()).unwrap();
    let sorted = sort_keys(vec![a, b]);
    assert_eq!(sorted[0].name, "a");
    assert_eq!(sorted[1].name, "b");
    let g = generated_key("n".to_string(), "oops\n", String::new());
    assert_eq!(g.key_type, "");
    assert_eq!(g.public_key, "oops");
    assert_eq!(
        keygen_args("/k", "c", "p"),
        vec!["-t", "ed25519", "-f", "/k", "-C", "c", "-N", "p"]
    );
}

#[test]
fn ssh_errors_carry_stable_codes() {
    assert_eq!(generate_key_check("-x", false).unwrap_err().code(), "invalid_key_name");
    assert_eq!(generate_key_check("ok", true).unwrap_err().code(), "ssh_key_exists");
    assert!(generate_key_check("ok", false).is_ok());
    assert_eq!(keygen_failure(" boom \n").message(), "Key generation failed: boom");
    assert_eq!(tool_missing().code(), "ssh_tool_missing");
    let t = tool_timeout("ssh-keyscan", 15);
    assert_eq!(t.code(), "ssh_timeout");
    assert_eq!(t.message(), "ssh-keyscan aborted after 15 s (timeout)");
    assert_eq!(check_host("a b").unwrap_err().code(), "invalid_host");
    assert_eq!(scanned_lines(true, "  \n").unwrap_err().code(), "ssh_keyscan_failed");
    assert_eq!(scanned_lines(true, " h k v \n").unwrap(), "h k v");
}

#[test]
fn scan_output_yields_fingerprints() {
    let fps = host_fingerprints(true, "256 SHA256:aa h (ED25519)\nnoise\n3072 SHA256:bb h (RSA)\n");
    assert_eq!(fps.len(), 2);
    assert_eq!(fps[0].sha256, "SHA256:aa");
    assert_eq!(fps[0].key_type, "ED25519");
    assert_eq!(fps[1].key_type, "RSA");
    assert!(host_fingerprints(false, "256 SHA256:aa h (ED25519)").is_empty());
    assert_eq!(
        fingerprint_from_output(true, "256 SHA256:x c (ED25519)\nmore"),
        ("SHA256:x".to_string(), "ED25519".to_string())
    );
    assert_eq!(fingerprint_from_output(false, "256 SHA256:x c (ED25519)"), (String::new(), String::new()));
}

#[test]
fn missing_cli_returns_stable_code_ssh_tool_missing() {
    let err = tool_missing();
    assert_eq!(err.code(), "ssh_tool_missing");
    assert_ne!(err.code(), "invalid_operation");
}

#[test]
fn bare_host_undoes_the_host_form() {
    for h in ["github.com", "2001:db8::1", "odd]:host", ""] {
        for p in [22u16, 2222, 0] {
            assert_eq!(bare_host_of(&expected_host_form(h, Some(p))), h);
        }
    }
    assert_eq!(bare_host_of(&expected_host_form("gitlab.example.com", None)), "gitlab.example.com");
    assert_eq!(bare_host_of("[2001:db8::1]:22"), "2001:db8::1");
}
