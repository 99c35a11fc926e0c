use terra_git::auth::{AuthError, KeyringStore, MemoryStore, TokenStore};
use terra_git::credential_helper_proto::{
    answer_for, answer_get, lookup_hosts, parse_credential_input,
};

fn lookup(host: &str) -> Option<(String, String)> {
    match host {
        "gitlab.example.com" => Some(("demo-user".into(), "glpat-123".into())),
        "github.com" => Some((String::new(), "ghp_456".into())),
        _ => None,
    }
}

#[test]
fn answers_https_request() {
    let input = "protocol=https\nhost=gitlab.example.com\n\n";
    assert_eq!(
        answer_get(input, &lookup),
        Some("username=demo-user\npassword=glpat-123\n".into())
    );
}

#[test]
fn host_with_port_falls_back_to_bare_host() {
    let input = "protocol=https\nhost=gitlab.example.com:8443\n";
    assert!(answer_get(input, &lookup).unwrap().contains("glpat-123"));
}

#[test]
fn empty_username_becomes_token() {
    let input = "protocol=https\nhost=github.com\n";
    assert_eq!(
        answer_get(input, &lookup),
        Some("username=token\npassword=ghp_456\n".into())
    );
}

#[test]
fn unknown_host_and_ssh_return_none() {
    assert_eq!(answer_get("protocol=https\nhost=foreign.example\n", &lookup), None);
    assert_eq!(answer_get("protocol=ssh\nhost=gitlab.example.com\n", &lookup), None);
    assert_eq!(answer_get("complete garbage", &lookup), None);
    assert_eq!(answer_get("", &lookup), None);
}

#[test]
fn plaintext_http_is_not_answered() {
    assert_eq!(answer_get("protocol=http\nhost=gitlab.example.com\n", &lookup), None);
}

#[test]
fn host_is_lowercased_and_blank_line_terminates() {
    let input = "protocol=https\nhost=GitLab.Example.Com\n\nhost=other.example\n";
    assert!(answer_get(input, &lookup).unwrap().contains("demo-user"));
}

#[test]
fn username_with_line_break_returns_none() {
    let lookup = |host: &str| -> Option<(String, String)> {
        (host == "evil.example").then(|| ("x\nquit=1".into(), "tok".into()))
    };
    assert_eq!(answer_get("protocol=https\nhost=evil.example\n", &lookup), None);
}

#[test]
fn token_with_carriage_return_returns_none() {
    let lookup = |host: &str| -> Option<(String, String)> {
        (host == "evil.example").then(|| ("user".into(), "tok\rpassword=hijack".into()))
    };
    assert_eq!(answer_get("protocol=https\nhost=evil.example\n", &lookup), None);
}

#[test]
fn memory_store_roundtrip() {
    let mut store = MemoryStore::default();
    assert_eq!(store.get("github.com").unwrap(), None);

    store.set("github.com", "tok-1").unwrap();
    assert_eq!(store.get("github.com").unwrap(), Some("tok-1".into()));

    store.set("github.com", "tok-2").unwrap();
    assert_eq!(store.get("github.com").unwrap(), Some("tok-2".into()));

    store.set("gitlab.example.com", "tok-gl").unwrap();
    assert_eq!(store.get("github.com").unwrap(), Some("tok-2".into()));

    store.delete("github.com").unwrap();
    assert_eq!(store.get("github.com").unwrap(), None);
    store.delete("github.com").unwrap();
    assert_eq!(store.get("gitlab.example.com").unwrap(), Some("tok-gl".into()));
}

#[test]
fn credential_request_is_parsed_up_to_the_blank_line() {
    let r = parse_credential_input("  protocol= https \nhost= Example.ORG:8443 \nx=y\n\nhost=b\n");
    assert_eq!(r.protocol.as_deref(), Some("https"));
    assert_eq!(r.host.as_deref(), Some("example.org:8443"));
    let r = parse_credential_input("novalue\nprotocol=https\r\nhost=A\r\n");
    assert_eq!(r.protocol.as_deref(), Some("https"));
    assert_eq!(r.host.as_deref(), Some("a"));
    assert_eq!(
        lookup_hosts("protocol=https\nhost=h:1\n"),
        Some(("h:1".to_string(), Some("h".to_string())))
    );
    assert_eq!(lookup_hosts("protocol=https\nhost=h\n"), Some(("h".to_string(), None)));
    assert_eq!(lookup_hosts("protocol=https\n"), None);
}

#[test]
fn answers_are_single_line_values() {
    assert_eq!(answer_for(None), None);
    assert_eq!(
        answer_for(Some(("u".into(), "t".into()))),
        Some("username=u\npassword=t\n".into())
    );
    assert_eq!(answer_for(Some(("u".into(), "t\0x".into()))), None);
}

#[test]
fn keyring_error_text_names_the_cause() {
    let e = AuthError::Keyring("locked".into());
    assert_eq!(e.message(), "Keychain error: locked");
    let _ = KeyringStore::new();
    let _ = KeyringStore::with_service("terra-git-test");
}

#[test]
fn spaces_around_the_key_make_another_key() {
    let r = parse_credential_input("protocol = https\nhost=a\n");
    assert_eq!(r.protocol, None);
    assert_eq!(r.host.as_deref(), Some("a"));
}

#[test]
fn blank_line_ends_the_request() {
    let a = "protocol=https\nhost=example.com";
    for b in ["host=evil.example", "protocol=http\nhost=x", ""] {
        let longer = format!("{a}\n\n{b}");
        assert_eq!(parse_credential_input(&longer), parse_credential_input(a));
    }
    let crlf = "protocol=https\r";
    assert_eq!(parse_credential_input(&format!("{crlf}\n\nhost=x")), parse_credential_input(crlf));
}
