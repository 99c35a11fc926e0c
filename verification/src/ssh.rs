//! SSH key management and known_hosts trust on first use, as decisions on
//! plain values: which key names and host names are accepted, the arguments
//! of the OpenSSH tools, what their output says, and which known_hosts lines
//! may be written for a host. Running the tools and touching `~/.ssh` is the
//! caller's part.

use vstd::prelude::*;

use crate::domain::{SshHostFingerprint, SshKey};
use crate::error::GitEngineError;
use crate::text::{
    ascii_lower, ascii_lowercase, chars_eq, chars_eq_str, chars_of, contains_char, has_infix,
    has_prefix, is_alnum, is_alnum_char, is_char, join, last_where, lemma_last_where, lines,
    lines_of, occurs_at, push_str, split_chars, split_on, split_whitespace, starts_with_str,
    string_from, string_from_range, string_views, trim, trimmed, u64_to_string, views, words,
    decimal, contains_str, matches_at,
};

verus! {

/// `r` is the SSH error with stable code `code` and message `m`.
pub open spec fn ssh_error(r: GitEngineError, code: Seq<char>, m: Seq<char>) -> bool {
    r matches GitEngineError::Ssh { code: c, message: x } && c@ == code && x@ == m
}

fn ssh_err(code: &'static str, message: &str) -> (e: GitEngineError)
    ensures
        ssh_error(e, code@, message@),
{
    GitEngineError::Ssh { code, message: String::from_str(message) }
}

// ---------------------------------------------------------------------------
// Names
// ---------------------------------------------------------------------------

pub open spec fn key_name_char(c: char) -> bool {
    is_alnum(c) || c == '.' || c == '_' || c == '-'
}

/// A key file name: 1 to 64 characters out of letters, digits, `.`, `_`
/// and `-`, not starting with `-` (an option), without `..` and not only
/// dots (`.` would name `~/.ssh` itself).
pub open spec fn valid_key_name_model(n: Seq<char>) -> bool {
    &&& n.len() > 0
    &&& n.len() <= 64
    &&& n[0] != '-'
    &&& !n.contains('/')
    &&& !n.contains('\\')
    &&& !has_infix(n, ".."@)
    &&& !(forall|i: int| 0 <= i < n.len() ==> n[i] == '.')
    &&& forall|i: int| 0 <= i < n.len() ==> key_name_char(#[trigger] n[i])
}

/// Whether `name` is a valid key file name (see [`valid_key_name_model`]).
pub fn valid_key_name(name: &str) -> (r: bool)
    ensures
        r == valid_key_name_model(name@),
{
    let cs = chars_of(name);
    let s = cs.as_slice();
    if s.len() == 0 || s.len() > 64 || s[0] == '-' {
        return false;
    }
    let mut all_dots = true;
    let mut i: usize = 0;
    while i < s.len()
        invariant
            i <= s@.len(),
            s@ == name@,
            forall|j: int| 0 <= j < i ==> key_name_char(#[trigger] s@[j]),
            all_dots == forall|j: int| 0 <= j < i ==> s@[j] == '.',
        decreases s@.len() - i,
    {
        let c = s[i];
        if !(is_alnum_char(c) || c == '.' || c == '_' || c == '-') {
            assert(!key_name_char(s@[i as int]));
            return false;
        }
        if c != '.' {
            all_dots = false;
        }
        i = i + 1;
    }
    if all_dots {
        return false;
    }
    proof {
        assert(!s@.contains('/')) by {
            if s@.contains('/') {
                let j = choose|j: int| 0 <= j < s@.len() && s@[j] == '/';
                assert(key_name_char(s@[j]));
            }
        }
        assert(!s@.contains('\\')) by {
            if s@.contains('\\') {
                let j = choose|j: int| 0 <= j < s@.len() && s@[j] == '\\';
                assert(key_name_char(s@[j]));
            }
        }
    }
    !contains_str(s, "..")
}

pub open spec fn host_char(c: char) -> bool {
    is_alnum(c) || c == '.' || c == '-' || c == ':' || c == '_' || c == '[' || c == ']'
}

/// A host name, address or `[address]` for ssh-keyscan: 1 to 255
/// characters out of letters, digits and `.-:_[]`, not starting with `-`.
pub open spec fn valid_host_model(h: Seq<char>) -> bool {
    &&& h.len() > 0
    &&& h.len() <= 255
    &&& h[0] != '-'
    &&& forall|i: int| 0 <= i < h.len() ==> host_char(#[trigger] h[i])
}

/// Whether `host` is acceptable (see [`valid_host_model`]).
pub fn valid_host(host: &str) -> (r: bool)
    ensures
        r == valid_host_model(host@),
{
    let cs = chars_of(host);
    let s = cs.as_slice();
    if s.len() == 0 || s.len() > 255 || s[0] == '-' {
        return false;
    }
    let mut i: usize = 0;
    while i < s.len()
        invariant
            i <= s@.len(),
            s@ == host@,
            forall|j: int| 0 <= j < i ==> host_char(#[trigger] s@[j]),
        decreases s@.len() - i,
    {
        let c = s[i];
        if !(is_alnum_char(c) || c == '.' || c == '-' || c == ':' || c == '_' || c == '['
            || c == ']') {
            assert(!host_char(s@[i as int]));
            return false;
        }
        i = i + 1;
    }
    true
}

/// The file names of a key in `~/.ssh`: the private key `<name>` and the
/// public key `<name>.pub`; an invalid name is refused before any path is
/// formed (files get deleted through these).
pub fn key_paths(name: &str) -> (r: Result<(String, String), GitEngineError>)
    ensures
        valid_key_name_model(name@) ==> (r matches Ok((p, q)) && p@ == name@ && q@ == name@
            + ".pub"@),
        !valid_key_name_model(name@) ==> (r matches Err(e) && ssh_error(
            e,
            "invalid_key_name"@,
            "Invalid key name"@,
        )),
{
    if !valid_key_name(name) {
        return Err(ssh_err("invalid_key_name", "Invalid key name"));
    }
    let mut p = String::from_str(name);
    push_str(&mut p, ".pub");
    Ok((String::from_str(name), p))
}

// ---------------------------------------------------------------------------
// Host forms and keyscan
// ---------------------------------------------------------------------------

/// The known_hosts form of a host: `[host]:port` for a given port, else the
/// host itself.
pub open spec fn host_form(host: Seq<char>, port: Option<u16>) -> Seq<char> {
    match port {
        Some(p) => "["@ + host + "]:"@ + decimal(p as nat),
        None => host,
    }
}

/// The known_hosts form of a host (see [`host_form`]).
pub fn expected_host_form(host: &str, port: Option<u16>) -> (r: String)
    ensures
        r@ == host_form(host@, port),
{
    match port {
        Some(p) => {
            let mut s = String::from_str("[");
            push_str(&mut s, host);
            push_str(&mut s, "]:");
            let n = u64_to_string(p as u64);
            push_str(&mut s, n.as_str());
            s
        },
        None => String::from_str(host),
    }
}

/// The last position at which `p` occurs in `s` starting before `k`.
pub open spec fn last_occurrence(s: Seq<char>, p: Seq<char>, k: int) -> Option<int>
    decreases k,
{
    if k <= 0 {
        None
    } else if occurs_at(s, p, k - 1) {
        Some(k - 1)
    } else {
        last_occurrence(s, p, k - 1)
    }
}

/// The bare host of a known_hosts form: `[host]:port` gives `host`,
/// anything else stays as it is.
pub open spec fn bare_host_model(e: Seq<char>) -> Seq<char> {
    if e.len() > 0 && e[0] == '[' {
        let rest = e.drop_first();
        match last_occurrence(rest, "]:"@, rest.len() as int) {
            Some(i) => rest.take(i),
            None => e,
        }
    } else {
        e
    }
}

/// The bare host of a known_hosts form (see [`bare_host_model`]).
pub fn bare_host_of(expected: &str) -> (r: String)
    ensures
        r@ == bare_host_model(expected@),
{
    let cs = chars_of(expected);
    let s = cs.as_slice();
    if s.len() == 0 || s[0] != '[' {
        return String::from_str(expected);
    }
    let rest = crate::text::vec_from_range(s, 1, s.len());
    assert(rest@ =~= s@.drop_first());
    let pat = chars_of("]:");
    let mut k: usize = rest.len();
    while k > 0
        invariant
            k <= rest@.len(),
            pat@ == "]:"@,
            s@ == expected@,
            s@.len() > 0,
            s@[0] == '[',
            rest@ == s@.drop_first(),
            last_occurrence(rest@, "]:"@, rest@.len() as int) == last_occurrence(
                rest@,
                "]:"@,
                k as int,
            ),
        decreases k,
    {
        if matches_at(rest.as_slice(), pat.as_slice(), k - 1) {
            return string_from_range(rest.as_slice(), 0, k - 1);
        }
        k = k - 1;
    }
    String::from_str(expected)
}

/// The arguments of `ssh-keyscan`: `-T 5 [-p <port>] <host>`.
pub open spec fn keyscan_args_model(host: Seq<char>, port: Option<u16>) -> Seq<Seq<char>> {
    match port {
        Some(p) => seq!["-T"@, "5"@, "-p"@, decimal(p as nat), host],
        None => seq!["-T"@, "5"@, host],
    }
}

/// The arguments of `ssh-keyscan` (see [`keyscan_args_model`]); the port is
/// an argument of its own.
pub fn keyscan_args(host: &str, port: Option<u16>) -> (r: Vec<String>)
    ensures
        string_views(r@) == keyscan_args_model(host@, port),
{
    let mut args: Vec<String> = Vec::new();
    args.push(String::from_str("-T"));
    args.push(String::from_str("5"));
    match port {
        Some(p) => {
            args.push(String::from_str("-p"));
            args.push(u64_to_string(p as u64));
        },
        None => {},
    }
    args.push(String::from_str(host));
    assert(string_views(args@) =~= keyscan_args_model(host@, port));
    args
}

// ---------------------------------------------------------------------------
// Redacting passphrases
// ---------------------------------------------------------------------------

pub open spec fn passphrase_flag(a: Seq<char>) -> bool {
    a == "-N"@ || a == "-P"@
}

/// Whether the argument at `i` is a passphrase: it follows `-N` or `-P`,
/// and that flag was not itself a redacted value.
pub open spec fn redacted(args: Seq<Seq<char>>, i: int) -> bool
    decreases i,
{
    if i <= 0 {
        false
    } else {
        !redacted(args, i - 1) && passphrase_flag(args[i - 1])
    }
}

/// The arguments for the debug log: each passphrase replaced by `***`.
pub open spec fn redact_model(args: Seq<Seq<char>>) -> Seq<Seq<char>> {
    Seq::new(args.len(), |i: int| if redacted(args, i) { "***"@ } else { args[i] })
}

/// A copy of `args` for the debug log, without passphrases (see
/// [`redact_model`]); the real arguments stay as they are.
pub fn redact_args(args: &[&str]) -> (r: Vec<String>)
    ensures
        string_views(r@) == redact_model(Seq::new(args@.len(), |i: int| args@[i]@)),
{
    let ghost av = Seq::new(args@.len(), |i: int| args@[i]@);
    let mut out: Vec<String> = Vec::new();
    let mut redact_next = false;
    let mut i: usize = 0;
    while i < args.len()
        invariant
            i <= args@.len(),
            av == Seq::new(args@.len(), |k: int| args@[k]@),
            out@.len() == i,
            forall|k: int| 0 <= k < i ==> #[trigger] out@[k]@ == redact_model(av)[k],
            redact_next == redacted(av, i as int),
        decreases args@.len() - i,
    {
        if redact_next {
            out.push(String::from_str("***"));
            redact_next = false;
        } else {
            let a = chars_of(args[i]);
            redact_next = chars_eq_str(a.as_slice(), "-N") || chars_eq_str(a.as_slice(), "-P");
            out.push(String::from_str(args[i]));
        }
        i = i + 1;
    }
    assert(string_views(out@) =~= redact_model(av));
    out
}

// ---------------------------------------------------------------------------
// Tool output
// ---------------------------------------------------------------------------

/// A `.pub` line `<type> <base64> [comment]` as (type, comment).
pub open spec fn pub_line_model(line: Seq<char>) -> Option<(Seq<char>, Seq<char>)> {
    let w = words(line);
    if w.len() < 2 {
        None
    } else {
        Some((w[0], join(w.skip(2), " "@)))
    }
}

fn join_words(w: &Vec<Vec<char>>, from: usize, sep: &str) -> (r: String)
    requires
        from <= w@.len(),
    ensures
        r@ == join(views(w@).skip(from as int), sep@),
{
    let mut parts: Vec<String> = Vec::new();
    let mut i: usize = from;
    while i < w.len()
        invariant
            from <= i <= w@.len(),
            parts@.len() == i - from,
            forall|k: int| 0 <= k < parts@.len() ==> #[trigger] parts@[k]@ == w@[from + k]@,
        decreases w@.len() - i,
    {
        parts.push(string_from(w[i].as_slice()));
        i = i + 1;
    }
    let r = crate::error::join_strings(&parts, sep);
    assert(Seq::new(parts@.len(), |k: int| parts@[k]@) =~= views(w@).skip(from as int));
    r
}

/// Splits a `.pub` line into (type, comment) (see [`pub_line_model`]).
pub fn parse_pub_line(line: &str) -> (r: Option<(String, String)>)
    ensures
        match pub_line_model(line@) {
            Some((t, c)) => r matches Some((x, y)) && x@ == t && y@ == c,
            None => r is None,
        },
{
    let cs = chars_of(line);
    let w = split_whitespace(cs.as_slice());
    if w.len() < 2 {
        return None;
    }
    let t = string_from(w[0].as_slice());
    let c = join_words(&w, 2, " ");
    Some((t, c))
}

/// The first word of `w` that starts with `SHA256:`.
pub open spec fn first_sha(w: Seq<Seq<char>>) -> Option<int>
    decreases w.len(),
{
    if w.len() == 0 {
        None
    } else {
        match first_sha(w.drop_last()) {
            Some(i) => Some(i),
            None => if has_prefix(w.last(), "SHA256:"@) {
                Some(w.len() - 1)
            } else {
                None
            },
        }
    }
}

/// The key type of an `ssh-keygen -l` line: the text after its last `(`,
/// if it ends with `)`, without that.
pub open spec fn key_type_model(line: Seq<char>) -> Seq<char> {
    let after = line.skip(last_where(line, is_char('(')) + 1);
    if after.len() > 0 && after.last() == ')' {
        after.drop_last()
    } else {
        Seq::empty()
    }
}

/// An `ssh-keygen -l` line `256 SHA256:xxxx comment (ED25519)` as (sha256,
/// key type).
pub open spec fn fingerprint_line_model(line: Seq<char>) -> Option<(Seq<char>, Seq<char>)> {
    match first_sha(words(line)) {
        Some(i) => Some((words(line)[i], key_type_model(line))),
        None => None,
    }
}

proof fn lemma_sha_stays(w: Seq<Seq<char>>, k: int)
    requires
        0 <= k <= w.len(),
        first_sha(w.take(k)) is Some,
    ensures
        first_sha(w) == first_sha(w.take(k)),
    decreases w.len() - k,
{
    if k < w.len() {
        assert(w.take(k + 1).drop_last() =~= w.take(k));
        lemma_sha_stays(w, k + 1);
    } else {
        assert(w.take(k) =~= w);
    }
}

/// Splits an `ssh-keygen -l` line into (sha256, key type) (see
/// [`fingerprint_line_model`]).
pub fn parse_fingerprint_line(line: &str) -> (r: Option<(String, String)>)
    ensures
        match fingerprint_line_model(line@) {
            Some((s, t)) => r matches Some((x, y)) && x@ == s && y@ == t,
            None => r is None,
        },
{
    let cs = chars_of(line);
    let s = cs.as_slice();
    let w = split_whitespace(s);
    let ghost wv = views(w@);
    let mut i: usize = 0;
    assert(wv.take(0) =~= Seq::<Seq<char>>::empty());
    loop
        invariant
            i <= w@.len(),
            wv == views(w@),
            wv == words(s@),
            s@ == line@,
            first_sha(wv.take(i as int)) is None,
        ensures
            i < w@.len() && first_sha(wv) == Some(i as int),
        decreases w@.len() - i,
    {
        if i == w.len() {
            assert(wv.take(i as int) =~= wv);
            return None;
        }
        assert(wv.take(i + 1).drop_last() =~= wv.take(i as int));
        assert(wv.take(i + 1).last() == w@[i as int]@);
        if starts_with_str(w[i].as_slice(), "SHA256:") {
            proof {
                lemma_sha_stays(wv, i + 1);
            }
            break;
        }
        i = i + 1;
    }
    let sha = string_from(w[i].as_slice());
    let mut k: usize = s.len();
    while k > 0 && s[k - 1] != '('
        invariant
            k <= s@.len(),
            forall|j: int| k <= j < s@.len() ==> s@[j] != '(',
        decreases k,
    {
        k = k - 1;
    }
    proof {
        lemma_last_where(s@, is_char('('), k - 1);
    }
    let after = crate::text::vec_from_range(s, k, s.len());
    assert(after@ =~= s@.skip(k as int));
    let t = if after.len() > 0 && after[after.len() - 1] == ')' {
        let x = string_from_range(after.as_slice(), 0, after.len() - 1);
        assert(x@ =~= after@.drop_last());
        x
    } else {
        String::new()
    };
    Some((sha, t))
}

// ---------------------------------------------------------------------------
// Binding known_hosts lines to a host
// ---------------------------------------------------------------------------

pub const MSG_UNBOUND_LINE: &'static str = "known_hosts line cannot be bound to the host (marker/hashed)";

pub const MSG_HOST_PATTERN: &'static str = "known_hosts line contains a host pattern (wildcard)";

pub const MSG_FOREIGN_HOST: &'static str = "known_hosts line does not belong to the requested host";

pub const MSG_NO_LINE: &'static str = "No known_hosts line matching the host";

/// The host field of a known_hosts line: its first word.
pub open spec fn host_field(t: Seq<char>) -> Seq<char> {
    if words(t).len() > 0 {
        words(t)[0]
    } else {
        Seq::empty()
    }
}

/// `a` and `b` are equal up to ASCII case.
pub open spec fn eq_ignore_case(a: Seq<char>, b: Seq<char>) -> bool {
    ascii_lower(a) == ascii_lower(b)
}

/// What becomes of one trimmed line for the host `e` (bare form `bare`):
/// skipped (blank or comment), kept, or refused: a marker (`@`) or hashed
/// (`|`) line cannot be bound to a host, a host field with `*` or `?` is a
/// pattern, and every comma-separated host of the field must be the host.
pub open spec fn line_verdict(t: Seq<char>, e: Seq<char>, bare: Seq<char>) -> Result<bool, Seq<char>> {
    if t.len() == 0 || t[0] == '#' {
        Ok(false)
    } else if t[0] == '@' || t[0] == '|' {
        Err(MSG_UNBOUND_LINE@)
    } else if host_field(t).contains('*') || host_field(t).contains('?') {
        Err(MSG_HOST_PATTERN@)
    } else if exists|k: int|
        0 <= k < split_on(host_field(t), ',').len() && !eq_ignore_case(
            #[trigger] split_on(host_field(t), ',')[k],
            e,
        ) && !eq_ignore_case(split_on(host_field(t), ',')[k], bare) {
        Err(MSG_FOREIGN_HOST@)
    } else {
        Ok(true)
    }
}

/// The lines kept so far, or the refusal of the first line refused.
pub open spec fn known_hosts_fold(ls: Seq<Seq<char>>, e: Seq<char>, bare: Seq<char>) -> Result<
    Seq<Seq<char>>,
    Seq<char>,
>
    decreases ls.len(),
{
    if ls.len() == 0 {
        Ok(Seq::empty())
    } else {
        match known_hosts_fold(ls.drop_last(), e, bare) {
            Err(m) => Err(m),
            Ok(out) => match line_verdict(trim(ls.last()), e, bare) {
                Err(m) => Err(m),
                Ok(keep) => Ok(
                    if keep {
                        out.push(trim(ls.last()))
                    } else {
                        out
                    },
                ),
            },
        }
    }
}

/// The known_hosts lines that may be written for the host `e` (its
/// known_hosts form): every line bound to it (see [`line_verdict`]), and at
/// least one; otherwise the refusal.
pub open spec fn known_hosts_model(text: Seq<char>, e: Seq<char>) -> Result<Seq<Seq<char>>, Seq<char>> {
    match known_hosts_fold(lines_of(text), e, bare_host_model(e)) {
        Err(m) => Err(m),
        Ok(out) => if out.len() == 0 {
            Err(MSG_NO_LINE@)
        } else {
            Ok(out)
        },
    }
}

proof fn lemma_fold_err_stays(ls: Seq<Seq<char>>, e: Seq<char>, bare: Seq<char>, k: int)
    requires
        0 <= k <= ls.len(),
        known_hosts_fold(ls.take(k), e, bare) is Err,
    ensures
        known_hosts_fold(ls, e, bare) == known_hosts_fold(ls.take(k), e, bare),
    decreases ls.len() - k,
{
    if k < ls.len() {
        assert(ls.take(k + 1).drop_last() =~= ls.take(k));
        lemma_fold_err_stays(ls, e, bare, k + 1);
    } else {
        assert(ls.take(k) =~= ls);
    }
}

/// Whether every comma-separated host of `field` is `e` or `bare`, up to
/// ASCII case.
fn all_parts_match(field: &[char], e: &[char], bare: &[char]) -> (r: bool)
    ensures
        r == !(exists|k: int|
            0 <= k < split_on(field@, ',').len() && !eq_ignore_case(
                #[trigger] split_on(field@, ',')[k],
                e@,
            ) && !eq_ignore_case(split_on(field@, ',')[k], bare@)),
{
    let parts = split_chars(field, ',');
    let le = ascii_lowercase(e);
    let lb = ascii_lowercase(bare);
    let ghost pv = views(parts@);
    let mut i: usize = 0;
    while i < parts.len()
        invariant
            i <= parts@.len(),
            pv == views(parts@),
            pv == split_on(field@, ','),
            le@ == ascii_lower(e@),
            lb@ == ascii_lower(bare@),
            forall|k: int| 0 <= k < i ==> eq_ignore_case(#[trigger] pv[k], e@) || eq_ignore_case(pv[k], bare@),
        decreases parts@.len() - i,
    {
        let lp = ascii_lowercase(parts[i].as_slice());
        assert(pv[i as int] == parts@[i as int]@);
        if !chars_eq(lp.as_slice(), le.as_slice()) && !chars_eq(lp.as_slice(), lb.as_slice()) {
            return false;
        }
        i = i + 1;
    }
    true
}

/// Binds the known_hosts lines offered for a host to that host (its
/// known_hosts form `expected_host`), so that no wildcard or foreign entry
/// can be smuggled into `known_hosts` (see [`known_hosts_model`]).
pub fn validate_known_hosts_lines(text: &str, expected_host: &str) -> (r: Result<Vec<String>, GitEngineError>)
    ensures
        match known_hosts_model(text@, expected_host@) {
            Ok(out) => r matches Ok(v) && string_views(v@) == out,
            Err(m) => r matches Err(x) && ssh_error(x, "ssh_untrusted_line"@, m),
        },
{
    let bare = bare_host_of(expected_host);
    let ec = chars_of(expected_host);
    let bc = chars_of(bare.as_str());
    let tc = chars_of(text);
    let ls = lines(tc.as_slice());
    let ghost lv = views(ls@);
    let ghost bm = bare_host_model(expected_host@);
    let mut out: Vec<String> = Vec::new();
    let mut i: usize = 0;
    assert(lv.take(0) =~= Seq::<Seq<char>>::empty());
    assert(string_views(out@) =~= Seq::<Seq<char>>::empty());
    while i < ls.len()
        invariant
            i <= ls@.len(),
            lv == views(ls@),
            lv == lines_of(text@),
            ec@ == expected_host@,
            bc@ == bm,
            bm == bare_host_model(expected_host@),
            known_hosts_fold(lv.take(i as int), expected_host@, bm) == Ok::<
                Seq<Seq<char>>,
                Seq<char>,
            >(string_views(out@)),
        decreases ls@.len() - i,
    {
        assert(lv.take(i + 1).drop_last() =~= lv.take(i as int));
        assert(lv.take(i + 1).last() == ls@[i as int]@);
        let t = trimmed(ls[i].as_slice());
        if t.len() == 0 || t[0] == '#' {
            i = i + 1;
            continue;
        }
        if t[0] == '@' || t[0] == '|' {
            proof {
                lemma_fold_err_stays(lv, expected_host@, bm, i + 1);
            }
            return Err(ssh_err("ssh_untrusted_line", MSG_UNBOUND_LINE));
        }
        let w = split_whitespace(t.as_slice());
        let hf: Vec<char> = if w.len() > 0 {
            let mut x: Vec<char> = Vec::new();
            x.extend_from_slice(w[0].as_slice());
            x
        } else {
            Vec::new()
        };
        assert(hf@ == host_field(t@));
        if contains_char(hf.as_slice(), '*') || contains_char(hf.as_slice(), '?') {
            proof {
                lemma_fold_err_stays(lv, expected_host@, bm, i + 1);
            }
            return Err(ssh_err("ssh_untrusted_line", MSG_HOST_PATTERN));
        }
        if !all_parts_match(hf.as_slice(), ec.as_slice(), bc.as_slice()) {
            proof {
                lemma_fold_err_stays(lv, expected_host@, bm, i + 1);
            }
            return Err(ssh_err("ssh_untrusted_line", MSG_FOREIGN_HOST));
        }
        let ghost before = string_views(out@);
        out.push(string_from(t.as_slice()));
        assert(string_views(out@) =~= before.push(t@));
        i = i + 1;
    }
    assert(lv.take(ls@.len() as int) =~= lv);
    if out.len() == 0 {
        return Err(ssh_err("ssh_untrusted_line", MSG_NO_LINE));
    }
    Ok(out)
}

// ---------------------------------------------------------------------------
// Keys
// ---------------------------------------------------------------------------

/// A key as plain values.
pub struct KeyModel {
    pub name: Seq<char>,
    pub key_type: Seq<char>,
    pub comment: Seq<char>,
    pub public_key: Seq<char>,
    pub fingerprint: Seq<char>,
}

pub open spec fn key_view(k: SshKey) -> KeyModel {
    KeyModel {
        name: k.name@,
        key_type: k.key_type@,
        comment: k.comment@,
        public_key: k.public_key@,
        fingerprint: k.fingerprint@,
    }
}

/// The key of a `.pub` file named `name` with content `raw`: its trimmed
/// line, type and comment; none when the line is no key.
pub open spec fn key_of_model(name: Seq<char>, raw: Seq<char>, fingerprint: Seq<char>) -> Option<KeyModel> {
    match pub_line_model(trim(raw)) {
        Some((t, c)) => Some(
            KeyModel { name, key_type: t, comment: c, public_key: trim(raw), fingerprint },
        ),
        None => None,
    }
}

/// The key of a `.pub` file (see [`key_of_model`]).
pub fn key_from_pub(name: String, raw: &str, fingerprint: String) -> (r: Option<SshKey>)
    ensures
        match key_of_model(name@, raw@, fingerprint@) {
            Some(m) => r matches Some(k) && key_view(k) == m,
            None => r is None,
        },
{
    let line = string_from(trimmed(chars_of(raw).as_slice()).as_slice());
    match parse_pub_line(line.as_str()) {
        Some((key_type, comment)) => Some(
            SshKey { name, key_type, comment, public_key: line, fingerprint },
        ),
        None => None,
    }
}

/// The key just generated: like [`key_from_pub`], with empty type and
/// comment when the line cannot be split.
pub fn generated_key(name: String, raw: &str, fingerprint: String) -> (r: SshKey)
    ensures
        r.name == name,
        r.public_key@ == trim(raw@),
        r.fingerprint == fingerprint,
        match pub_line_model(trim(raw@)) {
            Some((t, c)) => r.key_type@ == t && r.comment@ == c,
            None => r.key_type@ == Seq::<char>::empty() && r.comment@ == Seq::<char>::empty(),
        },
{
    let line = string_from(trimmed(chars_of(raw).as_slice()).as_slice());
    let (key_type, comment) = match parse_pub_line(line.as_str()) {
        Some(x) => x,
        None => (String::new(), String::new()),
    };
    SshKey { name, key_type, comment, public_key: line, fingerprint }
}

/// The keys sorted by name, keys with equal names in their original order.
pub open spec fn insert_key(s: Seq<KeyModel>, k: KeyModel) -> Seq<KeyModel>
    decreases s.len(),
{
    if s.len() == 0 {
        seq![k]
    } else if crate::text::lex_le(s.last().name, k.name) {
        s.push(k)
    } else {
        insert_key(s.drop_last(), k).push(s.last())
    }
}

pub open spec fn sort_keys_model(s: Seq<KeyModel>) -> Seq<KeyModel>
    decreases s.len(),
{
    if s.len() == 0 {
        Seq::empty()
    } else {
        insert_key(sort_keys_model(s.drop_last()), s.last())
    }
}

pub open spec fn keys_view(v: Seq<SshKey>) -> Seq<KeyModel> {
    Seq::new(v.len(), |i: int| key_view(v[i]))
}

proof fn lemma_insert_key_at(s: Seq<KeyModel>, e: KeyModel, j: int)
    requires
        0 <= j <= s.len(),
        forall|k: int| j <= k < s.len() ==> !crate::text::lex_le(#[trigger] s[k].name, e.name),
        j == 0 || crate::text::lex_le(s[j - 1].name, e.name),
    ensures
        insert_key(s, e) == s.take(j).push(e) + s.skip(j),
    decreases s.len(),
{
    if s.len() == 0 {
        assert(s.take(j).push(e) + s.skip(j) =~= seq![e]);
    } else if j == s.len() {
        assert(s.take(j).push(e) + s.skip(j) =~= s.push(e));
    } else {
        let t = s.drop_last();
        assert(!crate::text::lex_le(s[s.len() - 1].name, e.name));
        assert forall|k: int| j <= k < t.len() implies !crate::text::lex_le(
            #[trigger] t[k].name,
            e.name,
        ) by {
            assert(t[k] == s[k]);
        }
        if j > 0 {
            assert(t[j - 1] == s[j - 1]);
        }
        lemma_insert_key_at(t, e, j);
        assert((t.take(j).push(e) + t.skip(j)).push(s.last()) =~= s.take(j).push(e) + s.skip(j));
    }
}

/// The keys sorted by name (stable).
pub fn sort_keys(keys: Vec<SshKey>) -> (r: Vec<SshKey>)
    ensures
        keys_view(r@) == sort_keys_model(keys_view(keys@)),
{
    let ghost kv = keys_view(keys@);
    let mut out: Vec<SshKey> = Vec::new();
    let mut rest = keys;
    let mut i: usize = 0;
    let n = rest.len();
    assert(kv.take(0) =~= Seq::<KeyModel>::empty());
    assert(keys_view(out@) =~= Seq::<KeyModel>::empty());
    assert(rest@ =~= keys@.skip(0));
    while i < n
        invariant
            i <= n,
            n == kv.len(),
            rest@ == keys@.skip(i as int),
            kv == keys_view(keys@),
            keys_view(out@) == sort_keys_model(kv.take(i as int)),
        decreases n - i,
    {
        let k = rest.remove(0);
        assert(rest@ =~= keys@.skip(i + 1));
        assert(k == keys@[i as int]);
        assert(kv.take(i + 1).drop_last() =~= kv.take(i as int));
        assert(kv.take(i + 1).last() == key_view(k));
        let ghost s = keys_view(out@);
        let ghost ee = key_view(k);
        let key = chars_of(k.name.as_str());
        let mut j = out.len();
        loop
            invariant
                j <= out@.len(),
                s == keys_view(out@),
                ee == key_view(k),
                key@ == k.name@,
                forall|q: int| j <= q < s.len() ==> !crate::text::lex_le(#[trigger] s[q].name, ee.name),
            ensures
                j == 0 || crate::text::lex_le(s[j - 1].name, ee.name),
            decreases j,
        {
            if j == 0 {
                break;
            }
            let p = chars_of(out[j - 1].name.as_str());
            if crate::text::chars_le(p.as_slice(), key.as_slice()) {
                break;
            }
            j = j - 1;
        }
        proof {
            lemma_insert_key_at(s, ee, j as int);
        }
        out.insert(j, k);
        assert(keys_view(out@) =~= s.take(j as int).push(ee) + s.skip(j as int));
        i = i + 1;
    }
    assert(kv.take(n as int) =~= kv);
    out
}

/// The fingerprint of a key from `ssh-keygen -lf <file>`: its first line
/// split (see [`fingerprint_line_model`]); nothing when the run failed or
/// the line says nothing.
pub fn fingerprint_from_output(ok: bool, stdout: &str) -> (r: (String, String))
    ensures
        !ok ==> r.0@ == Seq::<char>::empty() && r.1@ == Seq::<char>::empty(),
        ok ==> {
            let first = if lines_of(stdout@).len() > 0 {
                lines_of(stdout@)[0]
            } else {
                Seq::empty()
            };
            match fingerprint_line_model(first) {
                Some((s, t)) => r.0@ == s && r.1@ == t,
                None => r.0@ == Seq::<char>::empty() && r.1@ == Seq::<char>::empty(),
            }
        },
{
    if !ok {
        return (String::new(), String::new());
    }
    let ls = lines(chars_of(stdout).as_slice());
    let first = if ls.len() > 0 {
        string_from(ls[0].as_slice())
    } else {
        String::new()
    };
    match parse_fingerprint_line(first.as_str()) {
        Some(x) => x,
        None => (String::new(), String::new()),
    }
}

/// The arguments of `ssh-keygen` for a new ed25519 key at `key_path`; the
/// comment and the passphrase are arguments of their own.
pub fn keygen_args(key_path: &str, comment: &str, passphrase: &str) -> (r: Vec<String>)
    ensures
        string_views(r@) == seq![
            "-t"@,
            "ed25519"@,
            "-f"@,
            key_path@,
            "-C"@,
            comment@,
            "-N"@,
            passphrase@,
        ],
{
    let mut v: Vec<String> = Vec::new();
    v.push(String::from_str("-t"));
    v.push(String::from_str("ed25519"));
    v.push(String::from_str("-f"));
    v.push(String::from_str(key_path));
    v.push(String::from_str("-C"));
    v.push(String::from_str(comment));
    v.push(String::from_str("-N"));
    v.push(String::from_str(passphrase));
    assert(string_views(v@) =~= seq![
        "-t"@,
        "ed25519"@,
        "-f"@,
        key_path@,
        "-C"@,
        comment@,
        "-N"@,
        passphrase@,
    ]);
    v
}

/// The checks before a key is generated: a valid name, and no key of that
/// name yet (existing keys are never overwritten).
pub fn generate_key_check(name: &str, exists: bool) -> (r: Result<(), GitEngineError>)
    ensures
        !valid_key_name_model(name@) ==> (r matches Err(e) && ssh_error(
            e,
            "invalid_key_name"@,
            "Invalid key name"@,
        )),
        valid_key_name_model(name@) && exists ==> (r matches Err(e) && ssh_error(
            e,
            "ssh_key_exists"@,
            "A key with this name already exists"@,
        )),
        valid_key_name_model(name@) && !exists ==> r is Ok,
{
    if !valid_key_name(name) {
        return Err(ssh_err("invalid_key_name", "Invalid key name"));
    }
    if exists {
        return Err(ssh_err("ssh_key_exists", "A key with this name already exists"));
    }
    Ok(())
}

/// The error of a failed key generation, with what `ssh-keygen` said.
pub fn keygen_failure(stderr: &str) -> (e: GitEngineError)
    ensures
        ssh_error(e, "ssh_keygen_failed"@, "Key generation failed: "@ + trim(stderr@)),
{
    let mut m = String::from_str("Key generation failed: ");
    let t = string_from(trimmed(chars_of(stderr).as_slice()).as_slice());
    push_str(&mut m, t.as_str());
    GitEngineError::Ssh { code: "ssh_keygen_failed", message: m }
}

/// The error of a tool that is not installed.
pub fn tool_missing() -> (e: GitEngineError)
    ensures
        ssh_error(e, "ssh_tool_missing"@, "OpenSSH (ssh-keygen/ssh-keyscan) not found"@),
{
    ssh_err("ssh_tool_missing", "OpenSSH (ssh-keygen/ssh-keyscan) not found")
}

/// The error of a tool run killed after its limit.
pub fn tool_timeout(program: &str, secs: u64) -> (e: GitEngineError)
    ensures
        ssh_error(
            e,
            "ssh_timeout"@,
            program@ + " aborted after "@ + decimal(secs as nat) + " s (timeout)"@,
        ),
{
    let mut m = String::from_str(program);
    push_str(&mut m, " aborted after ");
    let n = u64_to_string(secs);
    push_str(&mut m, n.as_str());
    push_str(&mut m, " s (timeout)");
    GitEngineError::Ssh { code: "ssh_timeout", message: m }
}

// ---------------------------------------------------------------------------
// Host scans and trust
// ---------------------------------------------------------------------------

/// A host name is checked before any tool runs.
pub fn check_host(host: &str) -> (r: Result<(), GitEngineError>)
    ensures
        valid_host_model(host@) ==> r is Ok,
        !valid_host_model(host@) ==> (r matches Err(e) && ssh_error(
            e,
            "invalid_host"@,
            "Invalid host name"@,
        )),
{
    if !valid_host(host) {
        return Err(ssh_err("invalid_host", "Invalid host name"));
    }
    Ok(())
}

/// The known_hosts lines of a scan: the trimmed output of `ssh-keyscan`,
/// which must have succeeded and said something.
pub fn scanned_lines(ok: bool, stdout: &str) -> (r: Result<String, GitEngineError>)
    ensures
        ok && trim(stdout@).len() > 0 ==> (r matches Ok(s) && s@ == trim(stdout@)),
        !(ok && trim(stdout@).len() > 0) ==> (r matches Err(e) && ssh_error(
            e,
            "ssh_keyscan_failed"@,
            "Could not retrieve host keys"@,
        )),
{
    let t = trimmed(chars_of(stdout).as_slice());
    if !ok || t.len() == 0 {
        return Err(ssh_err("ssh_keyscan_failed", "Could not retrieve host keys"));
    }
    Ok(string_from(t.as_slice()))
}

/// The fingerprints in the output of `ssh-keygen -lf -` over the scanned
/// lines: one per line that splits (see [`fingerprint_line_model`]), none
/// when the run failed.
pub open spec fn fingerprints_model(ok: bool, out: Seq<char>) -> Seq<(Seq<char>, Seq<char>)> {
    if !ok {
        Seq::empty()
    } else {
        fingerprints_of(lines_of(out))
    }
}

pub open spec fn fingerprints_of(ls: Seq<Seq<char>>) -> Seq<(Seq<char>, Seq<char>)>
    decreases ls.len(),
{
    if ls.len() == 0 {
        Seq::empty()
    } else {
        match fingerprint_line_model(ls.last()) {
            Some((s, t)) => fingerprints_of(ls.drop_last()).push((t, s)),
            None => fingerprints_of(ls.drop_last()),
        }
    }
}

pub open spec fn fingerprint_views(v: Seq<SshHostFingerprint>) -> Seq<(Seq<char>, Seq<char>)> {
    Seq::new(v.len(), |i: int| (v[i].key_type@, v[i].sha256@))
}

/// The host fingerprints (key type, sha256) (see [`fingerprints_model`]).
pub fn host_fingerprints(ok: bool, out: &str) -> (r: Vec<SshHostFingerprint>)
    ensures
        fingerprint_views(r@) == fingerprints_model(ok, out@),
{
    let mut v: Vec<SshHostFingerprint> = Vec::new();
    if !ok {
        assert(fingerprint_views(v@) =~= Seq::<(Seq<char>, Seq<char>)>::empty());
        return v;
    }
    let ls = lines(chars_of(out).as_slice());
    let ghost lv = views(ls@);
    let mut i: usize = 0;
    assert(lv.take(0) =~= Seq::<Seq<char>>::empty());
    assert(fingerprint_views(v@) =~= Seq::<(Seq<char>, Seq<char>)>::empty());
    while i < ls.len()
        invariant
            i <= ls@.len(),
            lv == views(ls@),
            lv == lines_of(out@),
            fingerprint_views(v@) == fingerprints_of(lv.take(i as int)),
        decreases ls@.len() - i,
    {
        assert(lv.take(i + 1).drop_last() =~= lv.take(i as int));
        assert(lv.take(i + 1).last() == ls@[i as int]@);
        let line = string_from(ls[i].as_slice());
        match parse_fingerprint_line(line.as_str()) {
            Some((sha256, key_type)) => {
                let ghost before = fingerprint_views(v@);
                v.push(SshHostFingerprint { key_type, sha256 });
                assert(fingerprint_views(v@) =~= before.push((v@.last().key_type@, v@.last().sha256@)));
            },
            None => {},
        }
        i = i + 1;
    }
    assert(lv.take(ls@.len() as int) =~= lv);
    v
}

/// What is appended to `known_hosts` when a host is trusted: the lines bound
/// to it (see [`known_hosts_model`]), one per line; refused for an invalid
/// host or lines that are not bound to it, before anything is written.
pub fn trust_host_lines(host: &str, port: Option<u16>, text: &str) -> (r: Result<
    (String, String),
    GitEngineError,
>)
    ensures
        !valid_host_model(host@) ==> (r matches Err(e) && ssh_error(
            e,
            "invalid_host"@,
            "Invalid host name"@,
        )),
        valid_host_model(host@) ==> match known_hosts_model(text@, host_form(host@, port)) {
            Ok(out) => r matches Ok((f, t)) && f@ == host_form(host@, port) && t@ == join(
                out,
                "\n"@,
            ) + "\n"@,
            Err(m) => r matches Err(e) && ssh_error(e, "ssh_untrusted_line"@, m),
        },
{
    match check_host(host) {
        Ok(()) => {},
        Err(e) => {
            return Err(e);
        },
    }
    let expected = expected_host_form(host, port);
    let valid = match validate_known_hosts_lines(text, expected.as_str()) {
        Ok(v) => v,
        Err(e) => {
            return Err(e);
        },
    };
    let mut t = crate::error::join_strings(&valid, "\n");
    assert(Seq::new(valid@.len(), |i: int| valid@[i]@) =~= string_views(valid@));
    push_str(&mut t, "\n");
    Ok((expected, t))
}

/// Whether existing `known_hosts` content needs a line end before lines are
/// appended: it is not empty and does not end with one.
pub fn needs_line_end(content: &[u8]) -> (r: bool)
    ensures
        r == (content@.len() > 0 && content@.last() != 10u8),
{
    content.len() > 0 && content[content.len() - 1] != 10u8
}

proof fn lemma_fold_bound(ls: Seq<Seq<char>>, e: Seq<char>, bare: Seq<char>)
    requires
        known_hosts_fold(ls, e, bare) is Ok,
    ensures
        forall|i: int|
            0 <= i < known_hosts_fold(ls, e, bare)->Ok_0.len() ==> line_verdict(
                #[trigger] known_hosts_fold(ls, e, bare)->Ok_0[i],
                e,
                bare,
            ) == Ok::<bool, Seq<char>>(true),
    decreases ls.len(),
{
    if ls.len() > 0 {
        lemma_fold_bound(ls.drop_last(), e, bare);
    }
}

/// Every line that trusting a host writes to `known_hosts` is bound to that
/// host: no marker or hashed line, no host pattern, and each of its hosts is
/// the host itself; and there is at least one.
pub proof fn lemma_trusted_lines_are_bound(text: Seq<char>, e: Seq<char>)
    requires
        known_hosts_model(text, e) is Ok,
    ensures
        known_hosts_model(text, e)->Ok_0.len() > 0,
        forall|i: int|
            0 <= i < known_hosts_model(text, e)->Ok_0.len() ==> line_verdict(
                #[trigger] known_hosts_model(text, e)->Ok_0[i],
                e,
                bare_host_model(e),
            ) == Ok::<bool, Seq<char>>(true),
{
    lemma_fold_bound(lines_of(text), e, bare_host_model(e));
}

/// Keys come first by name, ascending.
pub open spec fn key_before() -> spec_fn(KeyModel, KeyModel) -> bool {
    |a: KeyModel, b: KeyModel| crate::text::lex_le(a.name, b.name)
}

proof fn lemma_insert_key_is(s: Seq<KeyModel>, x: KeyModel)
    ensures
        insert_key(s, x) == crate::order::insert_by(s, x, key_before()),
    decreases s.len(),
{
    if s.len() > 0 {
        lemma_insert_key_is(s.drop_last(), x);
    }
}

proof fn lemma_key_list_is_sort(s: Seq<KeyModel>)
    ensures
        sort_keys_model(s) == crate::order::sort_by(s, key_before()),
    decreases s.len(),
{
    if s.len() > 0 {
        lemma_key_list_is_sort(s.drop_last());
        lemma_insert_key_is(sort_keys_model(s.drop_last()), s.last());
    }
}

/// The key list is ordered by name and holds every key read.
pub proof fn lemma_keys_by_name(s: Seq<KeyModel>)
    ensures
        crate::order::sorted_by(sort_keys_model(s), key_before()),
        sort_keys_model(s).to_multiset() == s.to_multiset(),
{
    lemma_key_list_is_sort(s);
    assert(crate::order::total_order(key_before())) by {
        assert forall|a: KeyModel, b: KeyModel| #[trigger] key_before()(a, b) || key_before()(b, a) by {
            crate::text::lemma_lex_le_total(a.name, b.name);
        }
        assert forall|a: KeyModel, b: KeyModel, c: KeyModel|
            #[trigger] key_before()(a, b) && #[trigger] key_before()(b, c) implies key_before()(a, c) by {
            crate::text::lemma_lex_le_trans(a.name, b.name, c.name);
        }
    }
    crate::order::lemma_sort_by(s, key_before());
}

proof fn lemma_last_occurrence_at(s: Seq<char>, p: Seq<char>, j: int, k: int)
    requires
        0 <= j < k,
        occurs_at(s, p, j),
        forall|q: int| j < q < k ==> !occurs_at(s, p, q),
    ensures
        last_occurrence(s, p, k) == Some(j),
    decreases k,
{
    if k - 1 > j {
        lemma_last_occurrence_at(s, p, j, k - 1);
    }
}

/// [`bare_host_of`] undoes [`expected_host_form`]: the bare host of
/// `[host]:port` is the host, whatever it holds, and a host given without a
/// port that does not start with `[` is its own bare host.
pub proof fn lemma_bare_host_undoes_host_form(host: Seq<char>, port: Option<u16>)
    requires
        port is None ==> !(host.len() > 0 && host[0] == '['),
    ensures
        bare_host_model(host_form(host, port)) == host,
{
    if let Some(pt) = port {
        reveal_strlit("[");
        reveal_strlit("]:");
        let d = decimal(pt as nat);
        crate::text::lemma_decimal_digits(pt as nat);
        let e = host_form(host, port);
        let rest = e.drop_first();
        let n = host.len() as int;
        assert(rest =~= host + "]:"@ + d);
        assert(rest.subrange(n, n + 2) =~= "]:"@);
        assert forall|q: int| n < q < rest.len() implies !occurs_at(rest, "]:"@, q) by {
            if occurs_at(rest, "]:"@, q) {
                assert(rest.subrange(q, q + 2)[0] == ']');
                assert(rest[q] == ']');
                if q == n + 1 {
                    assert(rest[q] == ':');
                } else {
                    assert(rest[q] == d[q - n - 2]);
                    assert(crate::text::is_digit(d[q - n - 2]));
                }
            }
        }
        lemma_last_occurrence_at(rest, "]:"@, n, rest.len() as int);
        assert(rest.take(n) =~= host);
    }
}

} // verus!
