//! The git credential helper protocol: git asks the helper with
//! `key=value` lines (ended by a blank line or the end of input), and the
//! helper answers a `get` with `username=` and `password=` lines.
//!
//! Only `https` is answered: a token protected by the OS keychain must not go
//! out over plaintext `http`. An answer is only given when both values fit on
//! one protocol line: the protocol knows no escaping, so a line break would
//! let a value inject further protocol lines.

use vstd::prelude::*;

use crate::history::{lowercase, to_lowercase};
use crate::status_fast::opt_string_view;
use crate::text::{
    chars_eq_str, chars_of, first_where, is_char, lemma_first_where, lines, lines_of, push_str,
    string_from, string_from_range, trim, trimmed, views, split_on,
};

verus! {

/// A parsed credential request.
#[derive(Debug, Default, PartialEq, Eq)]
pub struct CredentialRequest {
    pub protocol: Option<String>,
    /// Host, possibly with a port (`gitlab.example.com:8443`), lowercased.
    pub host: Option<String>,
}

/// A request as plain values.
pub struct RequestModel {
    pub protocol: Option<Seq<char>>,
    pub host: Option<Seq<char>>,
}

/// One trimmed, non-blank line applied to the request: `protocol=` and
/// `host=` set their value (trimmed; the host lowercased), anything else
/// is ignored.
pub open spec fn apply_line(st: RequestModel, t: Seq<char>) -> RequestModel {
    let j = first_where(t, is_char('='));
    if j >= t.len() {
        st
    } else if t.take(j as int) == "protocol"@ {
        RequestModel { protocol: Some(trim(t.skip(j as int + 1))), ..st }
    } else if t.take(j as int) == "host"@ {
        RequestModel { host: Some(lowercase(trim(t.skip(j as int + 1)))), ..st }
    } else {
        st
    }
}

/// The lines from `i` on applied in order, up to the first blank line.
pub open spec fn request_scan(ls: Seq<Seq<char>>, i: int, st: RequestModel) -> RequestModel
    decreases ls.len() - i,
{
    if i < 0 || i >= ls.len() {
        st
    } else if trim(ls[i]).len() == 0 {
        st
    } else {
        request_scan(ls, i + 1, apply_line(st, trim(ls[i])))
    }
}

/// The request that `input` holds.
pub open spec fn request_model(input: Seq<char>) -> RequestModel {
    request_scan(lines_of(input), 0, RequestModel { protocol: None, host: None })
}

/// Parses the `key=value` lines of a credential request (see
/// [`request_model`]).
pub fn parse_credential_input(input: &str) -> (r: CredentialRequest)
    ensures
        opt_string_view(r.protocol) == request_model(input@).protocol,
        opt_string_view(r.host) == request_model(input@).host,
{
    let ls = lines(chars_of(input).as_slice());
    let ghost lv = views(ls@);
    let mut protocol: Option<String> = None;
    let mut host: Option<String> = None;
    let mut i: usize = 0;
    while i < ls.len()
        invariant
            i <= ls@.len(),
            lv == views(ls@),
            lv == lines_of(input@),
            request_model(input@) == request_scan(
                lv,
                i as int,
                RequestModel { protocol: opt_string_view(protocol), host: opt_string_view(host) },
            ),
        ensures
            request_model(input@) == (RequestModel {
                protocol: opt_string_view(protocol),
                host: opt_string_view(host),
            }),
        decreases ls@.len() - i,
    {
        let t = trimmed(ls[i].as_slice());
        assert(t@ == trim(lv[i as int]));
        if t.len() == 0 {
            break;
        }
        let mut j: usize = 0;
        while j < t.len() && t[j] != '='
            invariant
                j <= t@.len(),
                forall|q: int| 0 <= q < j ==> t@[q] != '=',
            decreases t@.len() - j,
        {
            j = j + 1;
        }
        proof {
            lemma_first_where(t@, is_char('='), j as int);
        }
        if j < t.len() {
            let key = crate::text::vec_from_range(t.as_slice(), 0, j);
            assert(key@ =~= t@.take(j as int));
            let value = crate::text::vec_from_range(t.as_slice(), j + 1, t.len());
            assert(value@ =~= t@.skip(j + 1));
            if chars_eq_str(key.as_slice(), "protocol") {
                protocol = Some(string_from(trimmed(value.as_slice()).as_slice()));
            } else if chars_eq_str(key.as_slice(), "host") {
                let v = string_from(trimmed(value.as_slice()).as_slice());
                host = Some(to_lowercase(v.as_str()));
            }
        }
        i = i + 1;
    }
    CredentialRequest { protocol, host }
}

/// Whatever follows a blank line never changes what
/// [`parse_credential_input`] reads: for all texts `a` and `b`, the parse of
/// `joined`, which is `a`, a blank line and `b`, gives the same protocol and
/// host as the parse of `a` (both are [`request_model`] of their input).
pub proof fn lemma_parse_credential_input_ignores_rest(a: &str, b: &str, joined: &str)
    requires
        joined@ == a@ + "\n\n"@ + b@,
    ensures
        request_model(joined@) == request_model(a@),
        request_model(joined@).protocol == request_model(a@).protocol,
        request_model(joined@).host == request_model(a@).host,
{
    lemma_parse_stops_at_blank_line(a@, b@);
}

proof fn lemma_trim_start_push_ws(x: Seq<char>, c: char)
    requires
        crate::text::is_ws(c),
    ensures
        crate::text::trim_start(x.push(c)) == if crate::text::trim_start(x).len() == 0 {
            Seq::<char>::empty()
        } else {
            crate::text::trim_start(x).push(c)
        },
    decreases x.len(),
{
    if x.len() == 0 {
        assert(x.push(c) =~= seq![c]);
        assert(seq![c].drop_first() =~= Seq::<char>::empty());
        assert(crate::text::trim_start(Seq::<char>::empty()) == Seq::<char>::empty());
        assert(crate::text::trim_start(x) == Seq::<char>::empty());
        assert(crate::text::trim_start(seq![c]) == crate::text::trim_start(seq![c].drop_first()));
    } else if crate::text::is_ws(x[0]) {
        assert(x.push(c).drop_first() =~= x.drop_first().push(c));
        lemma_trim_start_push_ws(x.drop_first(), c);
    } else {
        assert(x.push(c)[0] == x[0]);
        assert(crate::text::trim_start(x) == x);
        assert(crate::text::trim_start(x.push(c)) == x.push(c));
    }
}

/// A trailing `\r` of a line does not change the line trimmed.
proof fn lemma_trim_strip_cr(p: Seq<char>)
    ensures
        trim(crate::text::strip_cr(p)) == trim(p),
{
    if p.len() > 0 && p.last() == '\r' {
        let x = p.drop_last();
        assert(x.push('\r') =~= p);
        lemma_trim_start_push_ws(x, '\r');
        let t = crate::text::trim_start(x);
        if t.len() > 0 {
            assert(t.push('\r').drop_last() =~= t);
            assert(t.push('\r').last() == '\r');
        }
    }
}

proof fn lemma_scan_agree(l1: Seq<Seq<char>>, l2: Seq<Seq<char>>, i: int, m: int, st: RequestModel)
    requires
        0 <= i <= m,
        m <= l1.len(),
        m <= l2.len(),
        forall|k: int| i <= k < m ==> #[trigger] trim(l1[k]) == trim(l2[k]),
        m == l1.len() || trim(l1[m]).len() == 0,
        m == l2.len() || trim(l2[m]).len() == 0,
    ensures
        request_scan(l1, i, st) == request_scan(l2, i, st),
    decreases m - i,
{
    if i < m {
        assert(trim(l1[i]) == trim(l2[i]));
        lemma_scan_agree(l1, l2, i + 1, m, apply_line(st, trim(l1[i])));
    }
}

/// A blank line ends a request, and nothing after it is read:
/// `parse_credential_input(&format!("{a}\n\n{b}"))` gives the same protocol
/// and host as `parse_credential_input(a)`, for all texts `a` and `b` (its
/// contract is [`request_model`] of its input).
pub proof fn lemma_parse_stops_at_blank_line(a: Seq<char>, b: Seq<char>)
    ensures
        request_model(a + "\n\n"@ + b) == request_model(a),
        request_model(a + "\n\n"@ + b).protocol == request_model(a).protocol,
        request_model(a + "\n\n"@ + b).host == request_model(a).host,
{
    reveal_strlit("\n\n");
    let nl = '\n';
    let full = a + "\n\n"@ + b;
    let e = Seq::<char>::empty();
    assert(full =~= a.push(nl) + (e.push(nl) + b));
    crate::text::lemma_split_on_concat(a, e.push(nl) + b, nl);
    crate::text::lemma_split_on_concat(e, b, nl);
    assert(split_on(e, nl) == seq![e]);
    let pa = split_on(a, nl);
    let pb = split_on(b, nl);
    crate::text::lemma_split_on_nonempty(a, nl);
    crate::text::lemma_split_on_nonempty(b, nl);
    let pieces = split_on(full, nl);
    assert(pieces =~= pa + seq![e] + pb);
    let n = pieces.len();
    let na = pa.len() as int;
    let la = lines_of(a);
    let lf = lines_of(full);
    assert(forall|k: int| 0 <= k < n - 1 ==> #[trigger] lf[k] == crate::text::strip_cr(pieces[k]));
    assert(forall|k: int| 0 <= k < na - 1 ==> #[trigger] la[k] == crate::text::strip_cr(pa[k]));
    assert(lf[na] == crate::text::strip_cr(e));
    assert(trim(e) =~= e);
    assert(trim(lf[na]).len() == 0);
    let m = if pa.last().len() == 0 {
        na - 1
    } else {
        na
    };
    assert forall|k: int| 0 <= k < m implies #[trigger] trim(la[k]) == trim(lf[k]) by {
        assert(pieces[k] == pa[k]);
        if k == na - 1 {
            assert(la[k] == pa.last());
            lemma_trim_strip_cr(pa[k]);
        }
    }
    if m == na - 1 {
        assert(lf[m] == crate::text::strip_cr(pa[m]));
        assert(pa[m] == pa.last());
        assert(trim(lf[m]).len() == 0);
    }
    lemma_scan_agree(la, lf, 0, m, RequestModel { protocol: None, host: None });
}

/// A value that fits on one protocol line: no line feed, carriage return
/// or NUL.
pub open spec fn single_line(s: Seq<char>) -> bool {
    !s.contains('\n') && !s.contains('\r') && !s.contains('\0')
}

fn is_single_line(value: &str) -> (r: bool)
    ensures
        r == single_line(value@),
{
    let cs = chars_of(value);
    let s = cs.as_slice();
    let mut i: usize = 0;
    while i < s.len()
        invariant
            i <= s@.len(),
            s@ == value@,
            forall|j: int| 0 <= j < i ==> s@[j] != '\n' && s@[j] != '\r' && s@[j] != '\0',
        decreases s@.len() - i,
    {
        if s[i] == '\n' || s[i] == '\r' || s[i] == '\0' {
            return false;
        }
        i = i + 1;
    }
    true
}

/// The host a `get` request is answered for: its host, and only over
/// `https`.
pub open spec fn request_host(input: Seq<char>) -> Option<Seq<char>> {
    let req = request_model(input);
    if req.protocol == Some("https"@) {
        req.host
    } else {
        None
    }
}

/// A host without its port: the part before the first `:`.
pub open spec fn bare_host(h: Seq<char>) -> Seq<char> {
    h.take(first_where(h, is_char(':')) as int)
}

/// The answer for the user name and token found: an empty user name
/// becomes `token` (token auth takes any name); no answer when a value does
/// not fit on one line.
pub open spec fn answer_model(username: Seq<char>, token: Seq<char>) -> Option<Seq<char>> {
    let u = if username.len() == 0 {
        "token"@
    } else {
        username
    };
    if single_line(u) && single_line(token) {
        Some("username="@ + u + "\npassword="@ + token + "\n"@)
    } else {
        None
    }
}

/// The answer for what the lookup found (see [`answer_model`]); nothing
/// without a find.
pub fn answer_for(found: Option<(String, String)>) -> (r: Option<String>)
    ensures
        match found {
            Some((u, t)) => match answer_model(u@, t@) {
                Some(a) => r matches Some(x) && x@ == a,
                None => r is None,
            },
            None => r is None,
        },
{
    let (username, token) = match found {
        Some(p) => p,
        None => {
            return None;
        },
    };
    let u = if chars_of(username.as_str()).len() == 0 {
        String::from_str("token")
    } else {
        username
    };
    if !is_single_line(u.as_str()) || !is_single_line(token.as_str()) {
        return None;
    }
    let mut a = String::from_str("username=");
    push_str(&mut a, u.as_str());
    push_str(&mut a, "\npassword=");
    push_str(&mut a, token.as_str());
    push_str(&mut a, "\n");
    Some(a)
}

/// The hosts a `get` request is looked up for: the host, then, if it has a
/// port, the host without it; none for a request that is not answered.
pub fn lookup_hosts(input: &str) -> (r: Option<(String, Option<String>)>)
    ensures
        match request_host(input@) {
            Some(h) => r matches Some((x, y)) && x@ == h && opt_string_view(y) == (if bare_host(h)
                != h {
                Some(bare_host(h))
            } else {
                None
            }),
            None => r is None,
        },
{
    let req = parse_credential_input(input);
    let is_https = match &req.protocol {
        Some(p) => chars_eq_str(chars_of(p.as_str()).as_slice(), "https"),
        None => false,
    };
    if !is_https {
        return None;
    }
    let host = match req.host {
        Some(h) => h,
        None => {
            return None;
        },
    };
    let cs = chars_of(host.as_str());
    let s = cs.as_slice();
    let mut j: usize = 0;
    while j < s.len() && s[j] != ':'
        invariant
            j <= s@.len(),
            forall|q: int| 0 <= q < j ==> s@[q] != ':',
        decreases s@.len() - j,
    {
        j = j + 1;
    }
    proof {
        lemma_first_where(s@, is_char(':'), j as int);
    }
    if j == s.len() {
        assert(s@.take(j as int) =~= s@);
        return Some((host, None));
    }
    let bare = string_from_range(s, 0, j);
    assert(bare@.len() < s@.len());
    Some((host, Some(bare)))
}

/// The answer for one lookup result: [`answer_model`] of what was found,
/// none when nothing was.
pub open spec fn answer_of(o: Option<(String, String)>) -> Option<Seq<char>> {
    match o {
        Some(p) => answer_model(p.0@, p.1@),
        None => None,
    }
}

/// `answer` is what the lookups for host `h` give: the lookup of `h`
/// returned `o1`; its answer when it found something, otherwise, if `h`
/// has a port, the answer of the lookup of `h` without it, else none.
pub open spec fn answered_by<F: Fn(&str) -> Option<(String, String)>>(
    lookup: F,
    h: Seq<char>,
    answer: Option<Seq<char>>,
) -> bool {
    exists|s1: &str, o1: Option<(String, String)>|
        s1@ == h && #[trigger] call_ensures(lookup, (s1,), o1) && if o1 is Some {
            answer_of(o1) == answer
        } else if bare_host(h) != h {
            exists|s2: &str, o2: Option<(String, String)>|
                s2@ == bare_host(h) && #[trigger] call_ensures(lookup, (s2,), o2) && answer_of(o2)
                    == answer
        } else {
            answer is None
        }
}

/// Answers a `get` request with what `lookup` finds for its host (user
/// name, token), trying the host without its port when the host with it
/// finds nothing (see [`answered_by`]). Nothing is answered for a request
/// that is not `https` or has no host.
pub fn answer_get<F: Fn(&str) -> Option<(String, String)>>(input: &str, lookup: &F) -> (r: Option<
    String,
>)
    requires
        forall|s: &str| call_requires(*lookup, (s,)),
    ensures
        match request_host(input@) {
            None => r is None,
            Some(h) => answered_by(
                *lookup,
                h,
                match r {
                    Some(a) => Some(a@),
                    None => None,
                },
            ),
        },
{
    let (host, bare) = match lookup_hosts(input) {
        Some(x) => x,
        None => {
            return None;
        },
    };
    let ghost h = host@;
    let hs = host.as_str();
    let first = lookup(hs);
    let ghost o1 = first;
    let found = match first {
        Some(p) => Some(p),
        None => match bare {
            Some(b) => {
                let bs = b.as_str();
                let second = lookup(bs);
                proof {
                    let o2 = second;
                    assert(call_ensures(*lookup, (bs,), o2));
                }
                second
            },
            None => None,
        },
    };
    let r = answer_for(found);
    proof {
        assert(call_ensures(*lookup, (hs,), o1));
        assert(hs@ == h);
    }
    r
}

/// An answer is exactly two protocol lines, `username=…` and `password=…`,
/// each ended by a line feed: no value can add a line of its own (no line
/// feed elsewhere, no carriage return, no NUL anywhere).
pub proof fn lemma_answer_is_two_lines(username: Seq<char>, token: Seq<char>)
    ensures
        answer_model(username, token) matches Some(a) ==> {
            &&& a.take("username="@.len() as int) == "username="@
            &&& a.last() == '\n'
            &&& forall|k: int|
                0 <= k < a.len() ==> (#[trigger] a[k]) != '\r' && a[k] != '\0'
            &&& forall|k: int|
                0 <= k < a.len() - 1 && a[k] == '\n' ==> a.skip(k + 1) == "password="@ + token + "\n"@
        },
{
    reveal_strlit("username=");
    reveal_strlit("\npassword=");
    reveal_strlit("password=");
    reveal_strlit("\n");
    reveal_strlit("token");
    if let Some(a) = answer_model(username, token) {
        let u = if username.len() == 0 {
            "token"@
        } else {
            username
        };
        let p1 = "username="@;
        let p2 = "\npassword="@;
        let nl = "\n"@;
        assert(a == p1 + u + p2 + token + nl);
        let n1 = p1.len() + u.len();
        assert forall|k: int| 0 <= k < a.len() implies (#[trigger] a[k]) != '\r' && a[k] != '\0' by {
            if k < p1.len() {
                assert(a[k] == p1[k]);
            } else if k < n1 {
                assert(a[k] == u[k - p1.len()]);
            } else if k < n1 + p2.len() {
                assert(a[k] == p2[k - n1]);
            } else if k < n1 + p2.len() + token.len() {
                assert(a[k] == token[k - n1 - p2.len()]);
            } else {
                assert(a[k] == nl[k - n1 - p2.len() - token.len()]);
            }
        }
        assert forall|k: int|
            0 <= k < a.len() - 1 && a[k] == '\n' implies a.skip(k + 1) == "password="@ + token
            + "\n"@ by {
            if k < p1.len() {
                assert(a[k] == p1[k]);
            } else if k < n1 {
                assert(a[k] == u[k - p1.len()]);
                assert(u.contains(a[k]));
            } else if k < n1 + p2.len() {
                assert(a[k] == p2[k - n1]);
                assert(k == n1);
                assert(a.skip(k + 1) =~= "password="@ + token + "\n"@);
            } else if k < n1 + p2.len() + token.len() {
                assert(a[k] == token[k - n1 - p2.len()]);
                assert(token.contains(a[k]));
            }
        }
        assert(a.take(p1.len() as int) =~= p1);
    }
}

} // verus!
