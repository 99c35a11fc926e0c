//! Decisions of the extended git operations: content classification for
//! "changed but no diff", input checks, backups, the mergetool and image
//! views, and the mapping of repository states.

use base64::Engine;
use vstd::prelude::*;

use crate::domain::{EolStyle, ImageDiff, RepoOpState, UnchangedInfo, UnchangedReason};
use crate::error::GitEngineError;
use crate::sidecar::{literal_pathspec, opt_str_view};
use crate::status_fast::opt_string_view;
use crate::text::{
    all_hex, ascii_lower, ascii_lowercase, chars_eq_str, chars_of, contains_str, has_infix,
    has_prefix, is_alnum, is_char, is_hex, join, last_where, lemma_last_where, push_str, signed_value,
    split_chars, split_on, string_from, trim, trimmed, vec_from_range, views, parse_i64,
    starts_with_str, string_views, unsigned_value, decimal, lemma_decimal_digits,
    lemma_join_split, lemma_split_on_concat, lemma_split_on_without,
};

verus! {

// ---------------------------------------------------------------------------
// Content classification
// ---------------------------------------------------------------------------

/// Number of `\r\n` in `b`.
pub open spec fn crlf_count(b: Seq<u8>) -> nat
    decreases b.len(),
{
    if b.len() == 0 {
        0
    } else {
        crlf_count(b.drop_last()) + if b.last() == 10 && b.len() >= 2 && b[b.len() - 2] == 13 {
            1nat
        } else {
            0nat
        }
    }
}

/// Number of `\n` without a `\r` before it.
pub open spec fn bare_lf_count(b: Seq<u8>) -> nat
    decreases b.len(),
{
    if b.len() == 0 {
        0
    } else {
        bare_lf_count(b.drop_last()) + if b.last() == 10 && !(b.len() >= 2 && b[b.len() - 2]
            == 13) {
            1nat
        } else {
            0nat
        }
    }
}

/// The line-ending style of a content.
pub open spec fn eol_model(b: Seq<u8>) -> EolStyle {
    if crlf_count(b) == 0 && bare_lf_count(b) == 0 {
        EolStyle::NoBreaks
    } else if bare_lf_count(b) == 0 {
        EolStyle::Crlf
    } else if crlf_count(b) == 0 {
        EolStyle::Lf
    } else {
        EolStyle::Mixed
    }
}

/// Detects the line-ending style of a text content.
pub fn eol_style(bytes: &[u8]) -> (r: EolStyle)
    ensures
        r == eol_model(bytes@),
{
    let mut crlf: usize = 0;
    let mut lf: usize = 0;
    let mut i: usize = 0;
    while i < bytes.len()
        invariant
            i <= bytes@.len(),
            crlf == crlf_count(bytes@.take(i as int)),
            lf == bare_lf_count(bytes@.take(i as int)),
            crlf + lf <= i,
        decreases bytes@.len() - i,
    {
        assert(bytes@.take(i + 1).drop_last() =~= bytes@.take(i as int));
        if bytes[i] == 10 {
            if i > 0 && bytes[i - 1] == 13 {
                crlf = crlf + 1;
            } else {
                lf = lf + 1;
            }
        }
        i = i + 1;
    }
    assert(bytes@.take(bytes@.len() as int) =~= bytes@);
    if crlf == 0 && lf == 0 {
        EolStyle::NoBreaks
    } else if lf == 0 {
        EolStyle::Crlf
    } else if crlf == 0 {
        EolStyle::Lf
    } else {
        EolStyle::Mixed
    }
}

/// `b` without every `\r` that sits right before a `\n`: two contents equal
/// afterwards differ only in their line endings.
pub open spec fn strip_cr_model(b: Seq<u8>) -> Seq<u8>
    decreases b.len(),
{
    if b.len() == 0 {
        Seq::empty()
    } else if b.len() >= 2 && b[0] == 13 && b[1] == 10 {
        strip_cr_model(b.drop_first())
    } else {
        seq![b[0]] + strip_cr_model(b.drop_first())
    }
}

/// Removes every `\r` that sits right before a `\n`.
pub fn strip_cr_before_lf(bytes: &[u8]) -> (r: Vec<u8>)
    ensures
        r@ == strip_cr_model(bytes@),
{
    let mut out: Vec<u8> = Vec::new();
    let mut i: usize = 0;
    assert(bytes@.skip(0) =~= bytes@);
    while i < bytes.len()
        invariant
            i <= bytes@.len(),
            out@ + strip_cr_model(bytes@.skip(i as int)) == strip_cr_model(bytes@),
        decreases bytes@.len() - i,
    {
        let ghost t = bytes@.skip(i as int);
        assert(t.drop_first() =~= bytes@.skip(i + 1));
        if bytes[i] == 13 && i + 1 < bytes.len() && bytes[i + 1] == 10 {
            assert(t[0] == 13 && t[1] == 10);
        } else {
            let ghost before = out@;
            out.push(bytes[i]);
            assert(out@ + strip_cr_model(bytes@.skip(i + 1)) =~= before + (seq![t[0]]
                + strip_cr_model(t.drop_first())));
        }
        i = i + 1;
    }
    assert(strip_cr_model(bytes@.skip(i as int)) =~= Seq::<u8>::empty());
    assert(out@ + Seq::<u8>::empty() =~= out@);
    out
}

/// As git decides it: a NUL byte makes the content binary.
pub fn is_binary(bytes: &[u8]) -> (r: bool)
    ensures
        r == bytes@.contains(0u8),
{
    let mut i: usize = 0;
    while i < bytes.len()
        invariant
            i <= bytes@.len(),
            forall|j: int| 0 <= j < i ==> bytes@[j] != 0,
        decreases bytes@.len() - i,
    {
        if bytes[i] == 0 {
            assert(bytes@[i as int] == 0);
            return true;
        }
        i = i + 1;
    }
    false
}

/// An attribute of a path as git reports it.
pub enum Attr {
    /// Not set for the path (or not readable).
    Unspecified,
    /// Set (`text`).
    On,
    /// Unset (`-text`).
    Off,
    /// Set to a value (`eol=crlf`).
    Value(String),
}

/// The two settings that decide line endings in the working tree.
pub struct EolConfig {
    pub autocrlf: Option<String>,
    pub eol: Option<String>,
}

pub open spec fn setting_is(v: Option<String>, s: Seq<char>) -> bool {
    match v {
        Some(x) => ascii_lower(trim(x@)) == s,
        None => false,
    }
}

/// Which line endings a checkout of a path writes into the working tree,
/// from its `eol` and `text` attributes, `core.autocrlf` and `core.eol`
/// (`None`: no conversion, the content lands unchanged). An explicit `eol`
/// attribute beats the settings; `-text` turns conversion off;
/// `core.autocrlf` is read as git reads a boolean, plus `input`; a native
/// `core.eol` follows the platform.
pub open spec fn expected_eol_model(
    eol: Attr,
    text: Attr,
    config: Option<EolConfig>,
    windows: bool,
) -> Option<EolStyle> {
    match eol {
        Attr::Value(v) => if v@ == "crlf"@ {
            Some(EolStyle::Crlf)
        } else if v@ == "lf"@ {
            Some(EolStyle::Lf)
        } else {
            None
        },
        _ => {
            if text is Off {
                None
            } else {
                let is_text = match text {
                    Attr::On => true,
                    Attr::Value(v) => v@ == "auto"@,
                    _ => false,
                };
                match config {
                    None => None,
                    Some(cfg) => if setting_is(cfg.autocrlf, "input"@) {
                        None
                    } else if setting_is(cfg.autocrlf, "true"@) || setting_is(cfg.autocrlf, "1"@)
                        || setting_is(cfg.autocrlf, "yes"@) || setting_is(cfg.autocrlf, "on"@) {
                        Some(EolStyle::Crlf)
                    } else if !is_text {
                        None
                    } else if setting_is(cfg.eol, "crlf"@) {
                        Some(EolStyle::Crlf)
                    } else if setting_is(cfg.eol, "lf"@) {
                        Some(EolStyle::Lf)
                    } else if windows {
                        Some(EolStyle::Crlf)
                    } else {
                        Some(EolStyle::Lf)
                    },
                }
            }
        },
    }
}

fn setting_equals(v: &Option<String>, s: &str) -> (r: bool)
    ensures
        r == setting_is(*v, s@),
{
    match v {
        Some(x) => {
            let cs = chars_of(x.as_str());
            let t = trimmed(cs.as_slice());
            let low = ascii_lowercase(t.as_slice());
            chars_eq_str(low.as_slice(), s)
        },
        None => false,
    }
}

/// Which line endings a checkout of a path writes (see
/// [`expected_eol_model`]).
pub fn expected_line_endings(eol: &Attr, text: &Attr, config: Option<&EolConfig>, windows: bool) -> (r:
    Option<EolStyle>)
    ensures
        r == expected_eol_model(
            *eol,
            *text,
            match config {
                Some(c) => Some(*c),
                None => None,
            },
            windows,
        ),
{
    if let Attr::Value(v) = eol {
        let cs = chars_of(v.as_str());
        if chars_eq_str(cs.as_slice(), "crlf") {
            return Some(EolStyle::Crlf);
        } else if chars_eq_str(cs.as_slice(), "lf") {
            return Some(EolStyle::Lf);
        } else {
            return None;
        }
    }
    let is_text = match text {
        Attr::Off => {
            return None;
        },
        Attr::On => true,
        Attr::Value(v) => {
            let cs = chars_of(v.as_str());
            chars_eq_str(cs.as_slice(), "auto")
        },
        Attr::Unspecified => false,
    };
    let cfg = match config {
        Some(c) => c,
        None => {
            return None;
        },
    };
    if setting_equals(&cfg.autocrlf, "input") {
        return None;
    }
    if setting_equals(&cfg.autocrlf, "true") || setting_equals(&cfg.autocrlf, "1")
        || setting_equals(&cfg.autocrlf, "yes") || setting_equals(&cfg.autocrlf, "on") {
        return Some(EolStyle::Crlf);
    }
    if !is_text {
        return None;
    }
    if setting_equals(&cfg.eol, "crlf") {
        Some(EolStyle::Crlf)
    } else if setting_equals(&cfg.eol, "lf") {
        Some(EolStyle::Lf)
    } else if windows {
        Some(EolStyle::Crlf)
    } else {
        Some(EolStyle::Lf)
    }
}

/// Octal digits of `n`.
pub open spec fn octal(n: nat) -> Seq<char>
    decreases n,
{
    if n < 8 {
        seq![((('0' as u32) + n) as char)]
    } else {
        octal(n / 8).push((('0' as u32) + (n % 8)) as char)
    }
}

/// `n` in octal, padded with zeros to six digits (`{:06o}`).
pub open spec fn mode_model(n: nat) -> Seq<char> {
    let d = octal(n);
    if d.len() < 6 {
        Seq::new((6 - d.len()) as nat, |i: int| '0') + d
    } else {
        d
    }
}

fn octal_digits(n: u32) -> (r: Vec<char>)
    ensures
        r@ == octal(n as nat),
    decreases n,
{
    if n < 8 {
        let mut v: Vec<char> = Vec::new();
        v.push((48u8 + n as u8) as char);
        assert(v@ =~= octal(n as nat));
        v
    } else {
        let mut v = octal_digits(n / 8);
        v.push((48u8 + (n % 8) as u8) as char);
        v
    }
}

/// A file mode in octal, the way git prints it (`100644`).
pub fn mode_text(mode: u32) -> (r: String)
    ensures
        r@ == mode_model(mode as nat),
{
    let d = octal_digits(mode);
    let mut v: Vec<char> = Vec::new();
    if d.len() < 6 {
        let pad = 6 - d.len();
        let mut k: usize = 0;
        while k < pad
            invariant
                k <= pad,
                v@ == Seq::new(k as nat, |i: int| '0'),
            decreases pad - k,
        {
            v.push('0');
            k = k + 1;
            assert(v@ =~= Seq::new(k as nat, |i: int| '0'));
        }
    }
    let ghost pre = v@;
    let mut k: usize = 0;
    while k < d.len()
        invariant
            k <= d@.len(),
            v@ == pre + d@.take(k as int),
        decreases d@.len() - k,
    {
        v.push(d[k]);
        k = k + 1;
        assert(v@ =~= pre + d@.take(k as int));
    }
    assert(d@.take(d@.len() as int) =~= d@);
    assert(d@.len() >= 6 ==> pre =~= Seq::<char>::empty());
    string_from(v.as_slice())
}

pub open spec fn unknown_info() -> UnchangedInfo {
    UnchangedInfo {
        reason: UnchangedReason::Unknown,
        old_eol: None,
        new_eol: None,
        expected_eol: None,
        old_mode: None,
        new_mode: None,
    }
}

/// The plain-value view of an explanation.
pub struct UnchangedModel {
    pub reason: UnchangedReason,
    pub old_eol: Option<EolStyle>,
    pub new_eol: Option<EolStyle>,
    pub expected_eol: Option<EolStyle>,
    pub old_mode: Option<Seq<char>>,
    pub new_mode: Option<Seq<char>>,
}

pub open spec fn unchanged_view(i: UnchangedInfo) -> UnchangedModel {
    UnchangedModel {
        reason: i.reason,
        old_eol: i.old_eol,
        new_eol: i.new_eol,
        expected_eol: i.expected_eol,
        old_mode: opt_string_view(i.old_mode),
        new_mode: opt_string_view(i.new_mode),
    }
}

pub open spec fn unknown_model() -> UnchangedModel {
    unchanged_view(unknown_info())
}

/// Why git reports a file whose diff is empty, from both sides of the
/// comparison (`None`: the side is missing), the file modes of both sides and
/// the line endings a checkout would write (asked only for the working tree).
/// A mode change counts only for equal content and two existing sides; equal
/// content whose line endings differ from what a checkout would write is a
/// line-ending matter; otherwise equal content is identical. Different
/// content that is equal without the `\r` before each `\n` (and not binary)
/// is a line-ending matter too. Nothing else is claimed.
pub open spec fn unchanged_model(
    old: Option<Seq<u8>>,
    new: Option<Seq<u8>>,
    modes: Option<(u32, u32)>,
    staged: bool,
    expected: Option<EolStyle>,
) -> UnchangedModel {
    match (old, new) {
        (Some(o), Some(n)) => if o == n {
            match modes {
                Some((a, b)) if a != b && a != 0 && b != 0 => UnchangedModel {
                    reason: UnchangedReason::ModeOnly,
                    old_mode: Some(mode_model(a as nat)),
                    new_mode: Some(mode_model(b as nat)),
                    ..unknown_model()
                },
                _ => {
                    let actual = eol_model(n);
                    match expected {
                        Some(e) if !staged && actual != e && actual != EolStyle::NoBreaks => {
                            UnchangedModel {
                                reason: UnchangedReason::EolOnly,
                                new_eol: Some(actual),
                                expected_eol: Some(e),
                                ..unknown_model()
                            }
                        },
                        _ => UnchangedModel { reason: UnchangedReason::Identical, ..unknown_model() },
                    }
                },
            }
        } else if o.contains(0u8) || n.contains(0u8) {
            unknown_model()
        } else if strip_cr_model(o) == strip_cr_model(n) {
            UnchangedModel {
                reason: UnchangedReason::EolOnly,
                old_eol: Some(eol_model(o)),
                new_eol: Some(eol_model(n)),
                expected_eol: if staged {
                    None
                } else {
                    expected
                },
                ..unknown_model()
            }
        } else {
            unknown_model()
        },
        _ => unknown_model(),
    }
}

fn unknown() -> (r: UnchangedInfo)
    ensures
        unchanged_view(r) == unknown_model(),
{
    UnchangedInfo {
        reason: UnchangedReason::Unknown,
        old_eol: None,
        new_eol: None,
        expected_eol: None,
        old_mode: None,
        new_mode: None,
    }
}

fn bytes_equal(a: &[u8], b: &[u8]) -> (r: bool)
    ensures
        r == (a@ == b@),
{
    if a.len() != b.len() {
        return false;
    }
    let mut i: usize = 0;
    while i < a.len()
        invariant
            a@.len() == b@.len(),
            i <= a@.len(),
            forall|j: int| 0 <= j < i ==> a@[j] == b@[j],
        decreases a@.len() - i,
    {
        if a[i] != b[i] {
            return false;
        }
        i = i + 1;
    }
    assert(a@ =~= b@);
    true
}

/// Explains why git reports a file as changed although its diff is empty
/// (see [`unchanged_model`]).
pub fn explain_unchanged(
    old: Option<&[u8]>,
    new: Option<&[u8]>,
    modes: Option<(u32, u32)>,
    staged: bool,
    expected: Option<EolStyle>,
) -> (r: UnchangedInfo)
    ensures
        unchanged_view(r) == unchanged_model(
            match old {
                Some(o) => Some(o@),
                None => None,
            },
            match new {
                Some(n) => Some(n@),
                None => None,
            },
            modes,
            staged,
            expected,
        ),
{
    let (o, n) = match (old, new) {
        (Some(o), Some(n)) => (o, n),
        _ => {
            return unknown();
        },
    };
    if bytes_equal(o, n) {
        if let Some((a, b)) = modes {
            if a != b && a != 0 && b != 0 {
                return UnchangedInfo {
                    reason: UnchangedReason::ModeOnly,
                    old_eol: None,
                    new_eol: None,
                    expected_eol: None,
                    old_mode: Some(mode_text(a)),
                    new_mode: Some(mode_text(b)),
                };
            }
        }
        let actual = eol_style(n);
        if !staged {
            if let Some(e) = expected {
                if actual != e && actual != EolStyle::NoBreaks {
                    return UnchangedInfo {
                        reason: UnchangedReason::EolOnly,
                        old_eol: None,
                        new_eol: Some(actual),
                        expected_eol: Some(e),
                        old_mode: None,
                        new_mode: None,
                    };
                }
            }
        }
        return UnchangedInfo {
            reason: UnchangedReason::Identical,
            old_eol: None,
            new_eol: None,
            expected_eol: None,
            old_mode: None,
            new_mode: None,
        };
    }
    if is_binary(o) || is_binary(n) {
        return unknown();
    }
    let so = strip_cr_before_lf(o);
    let sn = strip_cr_before_lf(n);
    if bytes_equal(so.as_slice(), sn.as_slice()) {
        return UnchangedInfo {
            reason: UnchangedReason::EolOnly,
            old_eol: Some(eol_style(o)),
            new_eol: Some(eol_style(n)),
            expected_eol: if staged {
                None
            } else {
                expected
            },
            old_mode: None,
            new_mode: None,
        };
    }
    unknown()
}

// ---------------------------------------------------------------------------
// Images
// ---------------------------------------------------------------------------

/// The extension of `file`: the text after its last `.` (all of it without
/// one), lower-cased.
pub open spec fn extension(file: Seq<char>) -> Seq<char> {
    ascii_lower(file.skip(last_where(file, is_char('.')) + 1))
}

/// The image type of a file name, by its extension.
pub open spec fn image_mime_model(file: Seq<char>) -> Option<Seq<char>> {
    let e = extension(file);
    if e == "png"@ {
        Some("image/png"@)
    } else if e == "jpg"@ || e == "jpeg"@ {
        Some("image/jpeg"@)
    } else if e == "gif"@ {
        Some("image/gif"@)
    } else if e == "webp"@ {
        Some("image/webp"@)
    } else if e == "bmp"@ {
        Some("image/bmp"@)
    } else if e == "ico"@ {
        Some("image/x-icon"@)
    } else if e == "svg"@ {
        Some("image/svg+xml"@)
    } else {
        None
    }
}

/// Image type for the image diff view, by the file's extension.
pub fn image_mime(file: &str) -> (r: Option<&'static str>)
    ensures
        opt_str_view(r) == image_mime_model(file@),
{
    let cs = chars_of(file);
    let s = cs.as_slice();
    let mut k: usize = s.len();
    while k > 0 && s[k - 1] != '.'
        invariant
            k <= s@.len(),
            forall|j: int| k <= j < s@.len() ==> s@[j] != '.',
        decreases k,
    {
        k = k - 1;
    }
    proof {
        assert forall|j: int| k - 1 < j < s@.len() implies !(is_char('.'))(#[trigger] s@[j]) by {}
        lemma_last_where(s@, is_char('.'), k - 1);
    }
    let ext = vec_from_range(s, k, s.len());
    assert(ext@ =~= s@.skip(k as int));
    let low = ascii_lowercase(ext.as_slice());
    let e = low.as_slice();
    if chars_eq_str(e, "png") {
        Some("image/png")
    } else if chars_eq_str(e, "jpg") || chars_eq_str(e, "jpeg") {
        Some("image/jpeg")
    } else if chars_eq_str(e, "gif") {
        Some("image/gif")
    } else if chars_eq_str(e, "webp") {
        Some("image/webp")
    } else if chars_eq_str(e, "bmp") {
        Some("image/bmp")
    } else if chars_eq_str(e, "ico") {
        Some("image/x-icon")
    } else if chars_eq_str(e, "svg") {
        Some("image/svg+xml")
    } else {
        None
    }
}

/// A digit of the standard base64 alphabet (`A-Z a-z 0-9 + /`).
pub open spec fn b64_digit(v: int) -> char {
    if v < 26 {
        (65 + v) as char
    } else if v < 52 {
        (97 + v - 26) as char
    } else if v < 62 {
        (48 + v - 52) as char
    } else if v == 62 {
        '+'
    } else {
        '/'
    }
}

/// Standard base64 with `=` padding: every three bytes become four digits of
/// six bits each.
pub open spec fn base64_model(b: Seq<u8>) -> Seq<char>
    decreases b.len(),
{
    if b.len() == 0 {
        Seq::empty()
    } else {
        let b0 = b[0] as int;
        if b.len() == 1 {
            seq![b64_digit(b0 / 4), b64_digit((b0 % 4) * 16), '=', '=']
        } else {
            let b1 = b[1] as int;
            if b.len() == 2 {
                seq![b64_digit(b0 / 4), b64_digit((b0 % 4) * 16 + b1 / 16), b64_digit((b1 % 16) * 4), '=']
            } else {
                let b2 = b[2] as int;
                seq![
                    b64_digit(b0 / 4),
                    b64_digit((b0 % 4) * 16 + b1 / 16),
                    b64_digit((b1 % 16) * 4 + b2 / 64),
                    b64_digit(b2 % 64),
                ] + base64_model(b.skip(3))
            }
        }
    }
}

/// Encodes bytes with the standard base64 engine of the `base64` crate
/// (`general_purpose::STANDARD.encode`): the standard alphabet with `=`
/// padding, as its documentation and RFC 4648 say. The input is kept far
/// below the size at which the engine's length computation would overflow.
#[verifier::external_body]
fn base64_encode(bytes: &[u8]) -> (r: String)
    requires
        bytes@.len() <= 0x1000_0000,
    ensures
        r@ == base64_model(bytes@),
{
    base64::engine::general_purpose::STANDARD.encode(bytes)
}

/// Upper bound for images in the image diff view.
pub const MAX_IMAGE_BYTES: usize = 26214400;

/// The most bytes of a working-tree file that the comparison behind
/// [`explain_unchanged`] reads: up to four copies are in memory at once.
pub const MAX_UNCHANGED_BYTES: usize = 5242880;

/// The image as a `data:` URL.
pub fn to_data_url(mime: &str, bytes: &[u8]) -> (r: String)
    requires
        bytes@.len() <= MAX_IMAGE_BYTES,
    ensures
        r@ == "data:"@ + mime@ + ";base64,"@ + base64_model(bytes@),
{
    let mut r = String::from_str("data:");
    push_str(&mut r, mime);
    push_str(&mut r, ";base64,");
    let e = base64_encode(bytes);
    push_str(&mut r, e.as_str());
    r
}

/// Drops an image that exceeds the cap.
pub fn cap_image(bytes: Option<Vec<u8>>) -> (r: Option<Vec<u8>>)
    ensures
        r == match bytes {
            Some(b) => if b@.len() <= MAX_IMAGE_BYTES {
                Some(b)
            } else {
                None
            },
            None => None,
        },
{
    match bytes {
        Some(b) => if b.len() <= MAX_IMAGE_BYTES {
            Some(b)
        } else {
            None
        },
        None => None,
    }
}

/// Both sides of an image diff as `data:` URLs; an oversized or missing side
/// has none.
pub fn image_diff(mime: &str, old: Option<Vec<u8>>, new: Option<Vec<u8>>) -> (r: ImageDiff)
    ensures
        opt_string_view(r.old_data_url) == match old {
            Some(b) => if b@.len() <= MAX_IMAGE_BYTES {
                Some("data:"@ + mime@ + ";base64,"@ + base64_model(b@))
            } else {
                None
            },
            None => None,
        },
        opt_string_view(r.new_data_url) == match new {
            Some(b) => if b@.len() <= MAX_IMAGE_BYTES {
                Some("data:"@ + mime@ + ";base64,"@ + base64_model(b@))
            } else {
                None
            },
            None => None,
        },
{
    let o = match cap_image(old) {
        Some(b) => Some(to_data_url(mime, b.as_slice())),
        None => None,
    };
    let n = match cap_image(new) {
        Some(b) => Some(to_data_url(mime, b.as_slice())),
        None => None,
    };
    ImageDiff { old_data_url: o, new_data_url: n }
}

// ---------------------------------------------------------------------------
// Input checks
// ---------------------------------------------------------------------------

/// Setting key families whose values start a shell or a program, or pull in
/// another configuration file (which could carry any refused key).
pub open spec fn forbidden_prefix(k: Seq<char>) -> bool {
    has_prefix(k, "alias."@) || has_prefix(k, "filter."@) || has_prefix(k, "pager."@)
        || has_prefix(k, "include."@) || has_prefix(k, "includeif."@)
}

/// Last key segments that make git run a command or program.
pub open spec fn forbidden_leaf(l: Seq<char>) -> bool {
    l == "sshcommand"@ || l == "pager"@ || l == "editor"@ || l == "hookspath"@ || l
        == "fsmonitor"@ || l == "askpass"@ || l == "gitproxy"@ || l == "helper"@ || l == "cmd"@
        || l == "command"@ || l == "driver"@ || l == "program"@ || l == "process"@ || l
        == "clean"@ || l == "smudge"@ || l == "templatedir"@ || l == "packobjectshook"@ || l
        == "external"@ || l == "alternaterefscommand"@ || l == "defaultkeycommand"@ || l
        == "uploadpack"@ || l == "receivepack"@ || l == "tunnel"@ || l == "path"@ || l
        == "textconv"@ || l == "insteadof"@ || l == "pushinsteadof"@
}

/// A setting key that may not be set through the settings interface: its
/// value would run a command during later git operations. Compared trimmed
/// and lower-cased.
pub open spec fn forbidden_key_model(key: Seq<char>) -> bool {
    let k = ascii_lower(trim(key));
    forbidden_prefix(k) || forbidden_leaf(k.skip(last_where(k, is_char('.')) + 1))
}

/// Whether a setting key is refused (see [`forbidden_key_model`]).
pub fn is_forbidden_config_key(key: &str) -> (r: bool)
    ensures
        r == forbidden_key_model(key@),
{
    let cs = chars_of(key);
    let t = trimmed(cs.as_slice());
    let low = ascii_lowercase(t.as_slice());
    let k = low.as_slice();
    if starts_with_str(k, "alias.") || starts_with_str(k, "filter.") || starts_with_str(
        k,
        "pager.",
    ) || starts_with_str(k, "include.") || starts_with_str(k, "includeif.") {
        return true;
    }
    let mut p: usize = k.len();
    while p > 0 && k[p - 1] != '.'
        invariant
            p <= k@.len(),
            forall|j: int| p <= j < k@.len() ==> k@[j] != '.',
        decreases p,
    {
        p = p - 1;
    }
    proof {
        assert forall|j: int| p - 1 < j < k@.len() implies !(is_char('.'))(#[trigger] k@[j]) by {}
        lemma_last_where(k@, is_char('.'), p - 1);
    }
    let lv = vec_from_range(k, p, k.len());
    assert(lv@ =~= k@.skip(p as int));
    let l = lv.as_slice();
    chars_eq_str(l, "sshcommand") || chars_eq_str(l, "pager") || chars_eq_str(l, "editor")
        || chars_eq_str(l, "hookspath") || chars_eq_str(l, "fsmonitor") || chars_eq_str(
        l,
        "askpass",
    ) || chars_eq_str(l, "gitproxy") || chars_eq_str(l, "helper") || chars_eq_str(l, "cmd")
        || chars_eq_str(l, "command") || chars_eq_str(l, "driver") || chars_eq_str(l, "program")
        || chars_eq_str(l, "process") || chars_eq_str(l, "clean") || chars_eq_str(l, "smudge")
        || chars_eq_str(l, "templatedir") || chars_eq_str(l, "packobjectshook") || chars_eq_str(
        l,
        "external",
    ) || chars_eq_str(l, "alternaterefscommand") || chars_eq_str(l, "defaultkeycommand")
        || chars_eq_str(l, "uploadpack") || chars_eq_str(l, "receivepack") || chars_eq_str(
        l,
        "tunnel",
    ) || chars_eq_str(l, "path") || chars_eq_str(l, "textconv") || chars_eq_str(l, "insteadof")
        || chars_eq_str(l, "pushinsteadof")
}

/// `r` is the invalid-operation error with message `m`, or success where
/// there is none.
pub open spec fn invalid_with(r: Result<(), GitEngineError>, m: Option<Seq<char>>) -> bool {
    match m {
        None => r is Ok,
        Some(msg) => r matches Err(GitEngineError::InvalidOperation(x)) && x@ == msg,
    }
}

fn invalid(a: &str, b: &str, c: &str) -> (e: GitEngineError)
    ensures
        e matches GitEngineError::InvalidOperation(m) && m@ == a@ + b@ + c@,
{
    let mut m = String::from_str(a);
    push_str(&mut m, b);
    push_str(&mut m, c);
    GitEngineError::InvalidOperation(m)
}

/// The refusal of a setting key that could run commands.
pub fn config_key_refusal(key: &str) -> (e: GitEngineError)
    ensures
        e matches GitEngineError::InvalidOperation(m) && m@
            == "Config key is not allowed (can execute commands): "@ + key@,
{
    let e = invalid("Config key is not allowed (can execute commands): ", key, "");
    proof {
        reveal_strlit("");
    }
    e
}

/// Refuses a free-text argument that git would read as an option (leading
/// `-`); `what` names it in the message.
pub fn reject_option_like(value: &str, what: &str) -> (r: Result<(), GitEngineError>)
    ensures
        invalid_with(
            r,
            if value@.len() > 0 && value@[0] == '-' {
                Some("Invalid "@ + what@ + " (starts with '-'): "@ + value@)
            } else {
                None
            },
        ),
{
    let cs = chars_of(value);
    if cs.len() > 0 && cs[0] == '-' {
        let mut m = String::from_str("Invalid ");
        push_str(&mut m, what);
        push_str(&mut m, " (starts with '-'): ");
        push_str(&mut m, value);
        return Err(GitEngineError::InvalidOperation(m));
    }
    Ok(())
}

/// A sparse-checkout directory is acceptable: not blank, no leading `-`, no
/// `..`, no backslash.
pub open spec fn sparse_dir_ok(d: Seq<char>) -> bool {
    trim(d).len() > 0 && !(d.len() > 0 && d[0] == '-') && !has_infix(d, ".."@) && !d.contains(
        '\\',
    )
}

/// Validates a sparse-checkout directory against option and path injection.
pub fn validate_sparse_dir(dir: &str) -> (r: Result<(), GitEngineError>)
    ensures
        invalid_with(
            r,
            if sparse_dir_ok(dir@) {
                None
            } else {
                Some("Invalid directory for sparse-checkout: "@ + dir@)
            },
        ),
{
    let cs = chars_of(dir);
    let s = cs.as_slice();
    let t = trimmed(s);
    let mut backslash = false;
    let mut i: usize = 0;
    while i < s.len()
        invariant
            i <= s@.len(),
            backslash == exists|j: int| 0 <= j < i && s@[j] == '\\',
        decreases s@.len() - i,
    {
        if s[i] == '\\' {
            backslash = true;
        }
        i = i + 1;
    }
    if t.len() == 0 || (s.len() > 0 && s[0] == '-') || contains_str(s, "..") || backslash {
        let mut m = String::from_str("Invalid directory for sparse-checkout: ");
        push_str(&mut m, dir);
        return Err(GitEngineError::InvalidOperation(m));
    }
    Ok(())
}

/// The refusal of an empty sparse-checkout selection, or the first
/// directory that fails [`validate_sparse_dir`].
pub fn validate_sparse_dirs(dirs: &[String]) -> (r: Result<(), GitEngineError>)
    ensures
        dirs@.len() == 0 ==> invalid_with(
            r,
            Some("Select at least one directory — or disable sparse-checkout"@),
        ),
        dirs@.len() > 0 ==> (r is Ok <==> forall|i: int|
            0 <= i < dirs@.len() ==> sparse_dir_ok(#[trigger] dirs@[i]@)),
        dirs@.len() > 0 && r is Err ==> exists|i: int|
            0 <= i < dirs@.len() && !sparse_dir_ok(#[trigger] dirs@[i]@) && (forall|j: int|
                0 <= j < i ==> sparse_dir_ok(dirs@[j]@)) && invalid_with(
                r,
                Some("Invalid directory for sparse-checkout: "@ + dirs@[i]@),
            ),
{
    if dirs.len() == 0 {
        return Err(
            GitEngineError::InvalidOperation(
                String::from_str("Select at least one directory — or disable sparse-checkout"),
            ),
        );
    }
    let mut i: usize = 0;
    while i < dirs.len()
        invariant
            i <= dirs@.len(),
            forall|j: int| 0 <= j < i ==> sparse_dir_ok(#[trigger] dirs@[j]@),
        decreases dirs@.len() - i,
    {
        match validate_sparse_dir(dirs[i].as_str()) {
            Ok(()) => {},
            Err(e) => {
                return Err(e);
            },
        }
        i = i + 1;
    }
    Ok(())
}

/// A (possibly abbreviated) commit id for a positional argument: 7 to 40 hex
/// digits.
pub open spec fn commit_hex_ok(c: Seq<char>) -> bool {
    7 <= c.len() <= 40 && forall|i: int| 0 <= i < c.len() ==> is_hex(#[trigger] c[i])
}

/// Validates a commit id that goes positionally to git.
pub fn validate_commit_hex(commit: &str) -> (r: Result<(), GitEngineError>)
    ensures
        invalid_with(
            r,
            if commit_hex_ok(commit@) {
                None
            } else {
                Some("Invalid commit id: "@ + commit@)
            },
        ),
{
    let cs = chars_of(commit);
    if cs.len() >= 7 && cs.len() <= 40 && all_hex(cs.as_slice()) {
        Ok(())
    } else {
        let mut m = String::from_str("Invalid commit id: ");
        push_str(&mut m, commit);
        Err(GitEngineError::InvalidOperation(m))
    }
}

// ---------------------------------------------------------------------------
// Backups
// ---------------------------------------------------------------------------

/// Namespace of the automatic backups before history rewrites.
pub const BACKUP_REF_PREFIX: &'static str = "refs/terra-git/backup/";

/// The name of a backup reference: `<prefix><op>-<unix>-<n>`, where the
/// counter keeps two backups of the same second apart.
pub fn backup_ref_name(op: &str, unix: u64, n: u64) -> (r: String)
    ensures
        r@ == BACKUP_REF_PREFIX@ + op@ + "-"@ + crate::text::decimal(unix as nat) + "-"@
            + crate::text::decimal(n as nat),
{
    let mut r = String::from_str(BACKUP_REF_PREFIX);
    push_str(&mut r, op);
    push_str(&mut r, "-");
    let t = crate::text::u64_to_string(unix);
    push_str(&mut r, t.as_str());
    push_str(&mut r, "-");
    let c = crate::text::u64_to_string(n);
    push_str(&mut r, c.as_str());
    r
}

/// The reflog message of a backup.
pub fn backup_reflog_message(op: &str) -> (r: String)
    ensures
        r@ == "terra-git: backup before "@ + op@,
{
    let mut r = String::from_str("terra-git: backup before ");
    push_str(&mut r, op);
    r
}

/// Refuses a reference outside the backup namespace (no reset or deletion of
/// arbitrary references).
pub fn check_backup_ref(ref_name: &str) -> (r: Result<(), GitEngineError>)
    ensures
        invalid_with(
            r,
            if has_prefix(ref_name@, BACKUP_REF_PREFIX@) {
                None
            } else {
                Some("Not a terra-git backup: "@ + ref_name@)
            },
        ),
{
    let cs = chars_of(ref_name);
    if starts_with_str(cs.as_slice(), BACKUP_REF_PREFIX) {
        Ok(())
    } else {
        let mut m = String::from_str("Not a terra-git backup: ");
        push_str(&mut m, ref_name);
        Err(GitEngineError::InvalidOperation(m))
    }
}

/// `s` is a number `i64` accepts.
pub open spec fn is_i64_text(s: Seq<char>) -> bool {
    match signed_value(s) {
        Some(v) => i64::MIN <= v <= i64::MAX,
        None => false,
    }
}

/// Number of numeric pieces at the end.
pub open spec fn numeric_tail(parts: Seq<Seq<char>>) -> nat
    decreases parts.len(),
{
    if parts.len() > 0 && is_i64_text(parts.last()) {
        1 + numeric_tail(parts.drop_last())
    } else {
        0
    }
}

/// Operation and time of a backup's short name `<op>-<unix>[-<n>]`: the
/// numeric pieces are split off from the right, the leftmost of them is the
/// time (0 without one), everything before it the operation (which may hold
/// `-` itself but is never numeric).
pub open spec fn backup_name_model(short: Seq<char>) -> (Seq<char>, int) {
    let parts = split_on(short, '-');
    let n = numeric_tail(parts);
    let ts = if n > 0 {
        signed_value(parts[parts.len() - n])->0
    } else {
        0
    };
    (join(parts.take(parts.len() - n), "-"@), ts)
}

proof fn lemma_numeric_tail_bound(parts: Seq<Seq<char>>)
    ensures
        numeric_tail(parts) <= parts.len(),
        forall|k: int|
            parts.len() - numeric_tail(parts) <= k < parts.len() ==> is_i64_text(#[trigger] parts[k]),
    decreases parts.len(),
{
    if parts.len() > 0 && is_i64_text(parts.last()) {
        lemma_numeric_tail_bound(parts.drop_last());
        assert forall|k: int|
            parts.len() - numeric_tail(parts) <= k < parts.len() implies is_i64_text(
            #[trigger] parts[k],
        ) by {
            if k < parts.len() - 1 {
                assert(parts[k] == parts.drop_last()[k]);
            }
        }
    }
}

/// Splits the short name of a backup reference into operation and time (see
/// [`backup_name_model`]).
pub fn parse_backup_ref_name(short: &str) -> (r: (String, i64))
    ensures
        (r.0@, r.1 as int) == backup_name_model(short@),
{
    let cs = chars_of(short);
    let parts = split_chars(cs.as_slice(), '-');
    let ghost pv = views(parts@);
    let len = parts.len();
    let mut n: usize = 0;
    assert(pv.take(len as int) =~= pv);
    loop
        invariant
            n <= len,
            len == parts@.len(),
            pv == views(parts@),
            numeric_tail(pv) == n + numeric_tail(pv.take(len - n)),
        ensures
            numeric_tail(pv) == n,
        decreases len - n,
    {
        if n == len {
            assert(pv.take(0) =~= Seq::<Seq<char>>::empty());
            break;
        }
        let piece = parts[len - 1 - n].as_slice();
        let ghost t = pv.take(len - n);
        assert(t.last() == piece@);
        assert(t.drop_last() =~= pv.take(len - n - 1));
        match parse_i64(piece) {
            Some(_) => {
                n = n + 1;
            },
            None => {
                break;
            },
        }
    }
    proof {
        lemma_numeric_tail_bound(pv);
    }
    assert(n > 0 ==> is_i64_text(pv[len - n]));
    let ts: i64 = if n > 0 {
        assert(pv[len - n] == parts@[len - n]@);
        match parse_i64(parts[len - n].as_slice()) {
            Some(v) => v,
            None => 0,
        }
    } else {
        0
    };
    let mut op = String::new();
    let mut i: usize = 0;
    let ghost head = pv.take(len - n);
    assert(head.take(0) =~= Seq::<Seq<char>>::empty());
    while i < len - n
        invariant
            i <= len - n,
            n <= len,
            len == parts@.len(),
            pv == views(parts@),
            head == pv.take(len - n),
            op@ == join(head.take(i as int), "-"@),
        decreases len - n - i,
    {
        if i > 0 {
            push_str(&mut op, "-");
        }
        let piece = string_from(parts[i].as_slice());
        push_str(&mut op, piece.as_str());
        proof {
            let t = head.take(i + 1);
            assert(t.drop_last() =~= head.take(i as int));
            assert(t.last() == piece@);
            if i == 0 {
                assert(op@ =~= t[0]);
            } else {
                assert(op@ =~= join(t.drop_last(), "-"@) + "-"@ + t.last());
            }
        }
        i = i + 1;
    }
    assert(head.take((len - n) as int) =~= head);
    (op, ts)
}

// ---------------------------------------------------------------------------
// Mergetool
// ---------------------------------------------------------------------------

pub open spec fn mergetool_char(c: char) -> bool {
    is_alnum(c) || c == '.' || c == '_' || c == '+' || c == '-'
}

/// An acceptable mergetool name: git sources a script named after it, so no
/// path separators or `..`, and no `=` (which would break the later `-c`
/// override); at most 64 characters.
pub open spec fn mergetool_name_ok(n: Seq<char>) -> bool {
    &&& n.len() > 0
    &&& n.len() <= 64
    &&& !has_infix(n, ".."@)
    &&& forall|i: int| 0 <= i < n.len() ==> mergetool_char(#[trigger] n[i])
}

/// Whether a mergetool name is acceptable (see [`mergetool_name_ok`]).
pub fn valid_mergetool_name(name: &str) -> (r: bool)
    ensures
        r == mergetool_name_ok(name@),
{
    let cs = chars_of(name);
    let s = cs.as_slice();
    if s.len() == 0 || s.len() > 64 || contains_str(s, "..") {
        return false;
    }
    let mut i: usize = 0;
    while i < s.len()
        invariant
            i <= s@.len(),
            s@ == name@,
            forall|j: int| 0 <= j < i ==> mergetool_char(#[trigger] s@[j]),
        decreases s@.len() - i,
    {
        let c = s[i];
        if !(crate::text::is_alnum_char(c) || c == '.' || c == '_' || c == '+' || c == '-') {
            assert(!mergetool_char(s@[i as int]));
            return false;
        }
        i = i + 1;
    }
    true
}

/// The arguments of `git mergetool`: the tool's two command keys forced to
/// the trusted values (or emptied), the tool named explicitly, no prompt,
/// the literal path after `--`.
pub open spec fn mergetool_args_model(
    tool: Seq<char>,
    cmd: Option<Seq<char>>,
    path: Option<Seq<char>>,
    literal: Seq<char>,
) -> Seq<Seq<char>> {
    seq![
        "-c"@,
        "mergetool."@ + tool + ".cmd="@ + match cmd {
            Some(c) => c,
            None => Seq::empty(),
        },
        "-c"@,
        "mergetool."@ + tool + ".path="@ + match path {
            Some(p) => p,
            None => Seq::empty(),
        },
        "mergetool"@,
        "--tool="@ + tool,
        "--no-prompt"@,
        "--"@,
        literal,
    ]
}

fn concat3(a: &str, b: &str, c: &str) -> (r: String)
    ensures
        r@ == a@ + b@ + c@,
{
    let mut r = String::from_str(a);
    push_str(&mut r, b);
    push_str(&mut r, c);
    r
}

/// The arguments of `git mergetool` (see [`mergetool_args_model`]).
pub fn mergetool_args(
    tool: &str,
    trusted_cmd: Option<&str>,
    trusted_path: Option<&str>,
    literal: &str,
) -> (r: Vec<String>)
    ensures
        string_views(r@) == mergetool_args_model(
            tool@,
            opt_str_view(trusted_cmd),
            opt_str_view(trusted_path),
            literal@,
        ),
{
    let mut r: Vec<String> = Vec::new();
    r.push(String::from_str("-c"));
    let mut c = concat3("mergetool.", tool, ".cmd=");
    if let Some(v) = trusted_cmd {
        push_str(&mut c, v);
    }
    r.push(c);
    r.push(String::from_str("-c"));
    let mut p = concat3("mergetool.", tool, ".path=");
    if let Some(v) = trusted_path {
        push_str(&mut p, v);
    }
    r.push(p);
    r.push(String::from_str("mergetool"));
    let mut t = String::from_str("--tool=");
    push_str(&mut t, tool);
    r.push(t);
    r.push(String::from_str("--no-prompt"));
    r.push(String::from_str("--"));
    r.push(String::from_str(literal));
    assert(string_views(r@) =~= mergetool_args_model(
        tool@,
        opt_str_view(trusted_cmd),
        opt_str_view(trusted_path),
        literal@,
    ));
    r
}

/// The configured mergetool (`merge.tool`, trimmed): refused when there is
/// none or its name is not acceptable.
pub fn mergetool_name(configured: Option<&str>) -> (r: Result<String, GitEngineError>)
    ensures
        match configured {
            Some(c) if trim(c@).len() > 0 => if mergetool_name_ok(trim(c@)) {
                r matches Ok(t) && t@ == trim(c@)
            } else {
                r matches Err(GitEngineError::InvalidOperation(m)) && m@
                    == "Invalid mergetool name in merge.tool: "@ + trim(c@)
            },
            _ => r matches Err(GitEngineError::InvalidOperation(m)) && m@
                == "No mergetool configured (merge.tool). Please set it in the global git configuration."@,
        },
{
    let t = match configured {
        Some(c) => crate::text::trim_str(c),
        None => {
            return Err(
                GitEngineError::InvalidOperation(
                    String::from_str(
                        "No mergetool configured (merge.tool). Please set it in the global git configuration.",
                    ),
                ),
            );
        },
    };
    if t.as_str().is_empty() {
        return Err(
            GitEngineError::InvalidOperation(
                String::from_str(
                    "No mergetool configured (merge.tool). Please set it in the global git configuration.",
                ),
            ),
        );
    }
    if !valid_mergetool_name(t.as_str()) {
        let mut m = String::from_str("Invalid mergetool name in merge.tool: ");
        push_str(&mut m, t.as_str());
        return Err(GitEngineError::InvalidOperation(m));
    }
    Ok(t)
}

/// The two setting keys that make the tool run a command.
pub fn mergetool_keys(tool: &str) -> (r: (String, String))
    ensures
        r.0@ == "mergetool."@ + tool@ + ".cmd"@,
        r.1@ == "mergetool."@ + tool@ + ".path"@,
{
    (concat3("mergetool.", tool, ".cmd"), concat3("mergetool.", tool, ".path"))
}

/// Opens the mergetool `tool` on `file`: refused when the repository itself
/// defines the tool's command and no trusted (global or system) definition
/// exists; otherwise `git mergetool` with the hardened arguments and the
/// generous limit (an interactive session).
pub fn open_mergetool(
    tool: &str,
    trusted_cmd: Option<&str>,
    trusted_path: Option<&str>,
    has_local_definition: bool,
    file: &str,
) -> (r: Result<crate::sidecar::GitCommand, GitEngineError>)
    ensures
        (trusted_cmd is None && has_local_definition) <==> r is Err,
        match r {
            Ok(c) => c.model() == crate::sidecar::plain(
                mergetool_args_model(
                    tool@,
                    opt_str_view(trusted_cmd),
                    opt_str_view(trusted_path),
                    ":(literal)"@ + file@,
                ),
                crate::sidecar::CLONE_TIMEOUT_SECS as nat,
                true,
            ),
            Err(e) => e matches GitEngineError::InvalidOperation(m) && m
                @ == "This repository ships its own mergetool definition (mergetool."@ + tool@
                + ".cmd). terra-git does not run repo-locally configured commands — add the tool to your global git configuration instead."@,
        },
{
    if trusted_cmd.is_none() && has_local_definition {
        let mut m = String::from_str("This repository ships its own mergetool definition (mergetool.");
        push_str(&mut m, tool);
        push_str(
            &mut m,
            ".cmd). terra-git does not run repo-locally configured commands — add the tool to your global git configuration instead.",
        );
        return Err(GitEngineError::InvalidOperation(m));
    }
    let literal = literal_pathspec(file);
    let args = mergetool_args(tool, trusted_cmd, trusted_path, literal.as_str());
    let envs: Vec<(String, String)> = Vec::new();
    assert(crate::sidecar::env_views(envs@) =~= Seq::<(Seq<char>, Seq<char>)>::empty());
    Ok(
        crate::sidecar::GitCommand {
            args,
            envs,
            timeout_secs: crate::sidecar::CLONE_TIMEOUT_SECS,
            trim: true,
            remote: false,
            streaming: false,
        },
    )
}

// ---------------------------------------------------------------------------
// Repository state
// ---------------------------------------------------------------------------

/// The state of a repository as the git library reports it.
#[derive(Debug, Clone, Copy, PartialEq, Eq, Structural)]
pub enum RepoState {
    Clean,
    Merge,
    Revert,
    RevertSequence,
    CherryPick,
    CherryPickSequence,
    Bisect,
    Rebase,
    RebaseInteractive,
    RebaseMerge,
    ApplyMailbox,
    ApplyMailboxOrRebase,
}

pub open spec fn op_state_of(s: RepoState) -> RepoOpState {
    match s {
        RepoState::Merge => RepoOpState::Merge,
        RepoState::Rebase | RepoState::RebaseInteractive | RepoState::RebaseMerge => RepoOpState::Rebase,
        RepoState::CherryPick | RepoState::CherryPickSequence => RepoOpState::Cherrypick,
        RepoState::Revert | RepoState::RevertSequence => RepoOpState::Revert,
        RepoState::Bisect => RepoOpState::Bisect,
        _ => RepoOpState::Clean,
    }
}

/// The operation in progress for a repository state (an apply in progress
/// counts as none).
pub fn map_state(state: RepoState) -> (r: RepoOpState)
    ensures
        r == op_state_of(state),
{
    match state {
        RepoState::Merge => RepoOpState::Merge,
        RepoState::Rebase | RepoState::RebaseInteractive | RepoState::RebaseMerge => RepoOpState::Rebase,
        RepoState::CherryPick | RepoState::CherryPickSequence => RepoOpState::Cherrypick,
        RepoState::Revert | RepoState::RevertSequence => RepoOpState::Revert,
        RepoState::Bisect => RepoOpState::Bisect,
        _ => RepoOpState::Clean,
    }
}

/// The subcommand of an operation in progress (none for a bisect or a clean
/// repository).
pub open spec fn op_subcommand(s: RepoOpState) -> Option<Seq<char>> {
    match s {
        RepoOpState::Merge => Some("merge"@),
        RepoOpState::Rebase => Some("rebase"@),
        RepoOpState::Cherrypick => Some("cherry-pick"@),
        RepoOpState::Revert => Some("revert"@),
        _ => None,
    }
}

fn op_subcommand_str(s: RepoOpState) -> (r: Option<&'static str>)
    ensures
        opt_str_view(r) == op_subcommand(s),
{
    match s {
        RepoOpState::Merge => Some("merge"),
        RepoOpState::Rebase => Some("rebase"),
        RepoOpState::Cherrypick => Some("cherry-pick"),
        RepoOpState::Revert => Some("revert"),
        _ => None,
    }
}

/// Aborts the operation in progress (`git <op> --abort`); a bisect ends
/// through its reset, and without an operation there is nothing to abort.
pub fn abort_operation(state: RepoOpState) -> (r: Result<crate::sidecar::GitCommand, GitEngineError>)
    ensures
        match op_subcommand(state) {
            Some(sub) => r matches Ok(c) && c.model() == crate::sidecar::plain(
                seq![sub, "--abort"@],
                crate::sidecar::SIDECAR_TIMEOUT_SECS as nat,
                true,
            ),
            None => r matches Err(GitEngineError::InvalidOperation(m)) && m@ == if state
                == RepoOpState::Bisect {
                "Bisect is ended via bisect_reset"@
            } else {
                "No running operation to abort"@
            },
        },
{
    match op_subcommand_str(state) {
        Some(sub) => {
            let a = [sub, "--abort"];
            let c = crate::sidecar::run_git(&a);
            assert(crate::sidecar::str_views(a@) =~= seq![sub@, "--abort"@]);
            Ok(c)
        },
        None => {
            if state == RepoOpState::Bisect {
                Err(GitEngineError::InvalidOperation(String::from_str("Bisect is ended via bisect_reset")))
            } else {
                Err(GitEngineError::InvalidOperation(String::from_str("No running operation to abort")))
            }
        },
    }
}

/// Continues the operation in progress (`git <op> --continue`, with the
/// generous limit); a bisect has no continue.
pub fn continue_operation(state: RepoOpState) -> (r: Result<crate::sidecar::GitCommand, GitEngineError>)
    ensures
        match op_subcommand(state) {
            Some(sub) => r matches Ok(c) && c.model() == crate::sidecar::plain(
                seq![sub, "--continue"@],
                crate::sidecar::CLONE_TIMEOUT_SECS as nat,
                true,
            ),
            None => r matches Err(GitEngineError::InvalidOperation(m)) && m@ == if state
                == RepoOpState::Bisect {
                "Bisect has no continue — mark good/bad/skip"@
            } else {
                "No running operation to continue"@
            },
        },
{
    match op_subcommand_str(state) {
        Some(sub) => {
            let a = [sub, "--continue"];
            let c = crate::sidecar::run_git_long(&a);
            assert(crate::sidecar::str_views(a@) =~= seq![sub@, "--continue"@]);
            Ok(c)
        },
        None => {
            if state == RepoOpState::Bisect {
                Err(
                    GitEngineError::InvalidOperation(
                        String::from_str("Bisect has no continue — mark good/bad/skip"),
                    ),
                )
            } else {
                Err(
                    GitEngineError::InvalidOperation(
                        String::from_str("No running operation to continue"),
                    ),
                )
            }
        },
    }
}

/// `git <args…>` with the generous limit and `LC_ALL=C` (so that the output
/// parsed by its English phrases stays English).
pub open spec fn c_locale(args: Seq<Seq<char>>) -> crate::sidecar::CommandModel {
    crate::sidecar::CommandModel {
        envs: seq![("LC_ALL"@, "C"@)],
        ..crate::sidecar::plain(args, crate::sidecar::CLONE_TIMEOUT_SECS as nat, true)
    }
}

/// Starts a bisect between a good and a bad commit (`HEAD` without one);
/// both must be hex commit ids.
pub fn bisect_start(good: &str, bad: Option<&str>) -> (r: Result<crate::sidecar::GitCommand, GitEngineError>)
    ensures
        !commit_hex_ok(good@) ==> invalid_with(
            match r {
                Ok(_) => Ok(()),
                Err(e) => Err(e),
            },
            Some("Invalid commit id: "@ + good@),
        ),
        commit_hex_ok(good@) ==> match bad {
            Some(b) => if commit_hex_ok(b@) {
                r matches Ok(c) && c.model() == c_locale(seq!["bisect"@, "start"@, b@, good@])
            } else {
                invalid_with(
                    match r {
                        Ok(_) => Ok(()),
                        Err(e) => Err(e),
                    },
                    Some("Invalid commit id: "@ + b@),
                )
            },
            None => r matches Ok(c) && c.model() == c_locale(
                seq!["bisect"@, "start"@, "HEAD"@, good@],
            ),
        },
{
    match validate_commit_hex(good) {
        Ok(()) => {},
        Err(e) => {
            return Err(e);
        },
    }
    let bad_ref = match bad {
        Some(b) => {
            match validate_commit_hex(b) {
                Ok(()) => {},
                Err(e) => {
                    return Err(e);
                },
            }
            b
        },
        None => "HEAD",
    };
    let a = ["bisect", "start", bad_ref, good];
    let e = [("LC_ALL", "C")];
    let c = crate::sidecar::run_git_long_env(&a, &e);
    assert(crate::sidecar::str_views(a@) =~= seq!["bisect"@, "start"@, bad_ref@, good@]);
    assert(Seq::new(e@.len(), |i: int| (e@[i].0@, e@[i].1@)) =~= seq![("LC_ALL"@, "C"@)]);
    Ok(c)
}

/// Marks the current bisect commit `good`, `bad` or `skip`.
pub fn bisect_mark(action: &str) -> (r: Result<crate::sidecar::GitCommand, GitEngineError>)
    ensures
        if action@ == "good"@ || action@ == "bad"@ || action@ == "skip"@ {
            r matches Ok(c) && c.model() == c_locale(seq!["bisect"@, action@])
        } else {
            r matches Err(GitEngineError::InvalidOperation(m)) && m@ == "Invalid bisect action: "@
                + action@
        },
{
    let cs = chars_of(action);
    if !(chars_eq_str(cs.as_slice(), "good") || chars_eq_str(cs.as_slice(), "bad") || chars_eq_str(
        cs.as_slice(),
        "skip",
    )) {
        let mut m = String::from_str("Invalid bisect action: ");
        push_str(&mut m, action);
        return Err(GitEngineError::InvalidOperation(m));
    }
    let a = ["bisect", action];
    let e = [("LC_ALL", "C")];
    let c = crate::sidecar::run_git_long_env(&a, &e);
    assert(crate::sidecar::str_views(a@) =~= seq!["bisect"@, action@]);
    assert(Seq::new(e@.len(), |i: int| (e@[i].0@, e@[i].1@)) =~= seq![("LC_ALL"@, "C"@)]);
    Ok(c)
}

/// Ends the bisect session.
pub fn bisect_reset() -> (r: crate::sidecar::GitCommand)
    ensures
        r.model() == c_locale(seq!["bisect"@, "reset"@]),
{
    let a = ["bisect", "reset"];
    let e = [("LC_ALL", "C")];
    let c = crate::sidecar::run_git_long_env(&a, &e);
    assert(crate::sidecar::str_views(a@) =~= seq!["bisect"@, "reset"@]);
    assert(Seq::new(e@.len(), |i: int| (e@[i].0@, e@[i].1@)) =~= seq![("LC_ALL"@, "C"@)]);
    c
}

// ---------------------------------------------------------------------------
// Blame
// ---------------------------------------------------------------------------

/// The header of a line group of `git blame --porcelain`
/// (`<sha> <orig-line> <final-line> [<count>]`): a 40-digit hex id and the
/// final line number. Metadata lines never pass for one.
pub open spec fn blame_header_model(line: Seq<char>) -> Option<(Seq<char>, nat)> {
    match (crate::text::piece(line, ' ', 0), crate::text::piece(line, ' ', 1), crate::text::piece(
        line,
        ' ',
        2,
    )) {
        (Some(sha), Some(_), Some(fl)) => if sha.len() == 40 && (forall|i: int|
            0 <= i < sha.len() ==> is_hex(#[trigger] sha[i])) {
            match unsigned_value(fl) {
                Some(v) => if v <= u32::MAX {
                    Some((sha, v))
                } else {
                    None
                },
                None => None,
            }
        } else {
            None
        },
        _ => None,
    }
}

/// Detects a blame header line (see [`blame_header_model`]).
pub fn parse_blame_header(line: &str) -> (r: Option<(String, u32)>)
    ensures
        match r {
            Some((sha, n)) => blame_header_model(line@) == Some((sha@, n as nat)),
            None => blame_header_model(line@) is None,
        },
{
    let cs = chars_of(line);
    let s = cs.as_slice();
    let sha = match crate::text::piece_of(s, ' ', 0) {
        Some(v) => v,
        None => {
            return None;
        },
    };
    if sha.len() != 40 || !all_hex(sha.as_slice()) {
        return None;
    }
    let second = crate::text::piece_of(s, ' ', 1);
    if second.is_none() {
        return None;
    }
    let fl = match crate::text::piece_of(s, ' ', 2) {
        Some(v) => v,
        None => {
            return None;
        },
    };
    match crate::text::parse_unsigned(fl.as_slice(), 4294967295u64) {
        Some(v) => Some((string_from(sha.as_slice()), v as u32)),
        None => None,
    }
}

/// A blamed line as plain values.
pub struct BlameModel {
    pub line_no: nat,
    pub commit_id: Seq<char>,
    pub short_id: Seq<char>,
    pub author: Seq<char>,
    pub time: int,
    pub content: Seq<char>,
}

/// State of the blame reader: author and time per commit id, the lines so
/// far, the current group's commit and final line number, and whether the
/// line cap was hit.
pub struct BlameState {
    pub meta: Map<Seq<char>, (Seq<char>, int)>,
    pub lines: Seq<BlameModel>,
    pub sha: Seq<char>,
    pub line_no: nat,
    pub done: bool,
}

/// `t` parsed as `i64`, or 0.
pub open spec fn i64_or_zero(t: Seq<char>) -> int {
    if is_i64_text(t) {
        signed_value(t)->0
    } else {
        0
    }
}

/// One line of the porcelain output: a tab-prefixed content line becomes a
/// blamed line of the current group (unless the cap is reached, which ends
/// the reading); `author` and `author-time` record the current commit's
/// metadata; a header line starts a group; everything else is ignored.
pub open spec fn blame_step(st: BlameState, line: Seq<char>, max: nat) -> BlameState {
    if st.done {
        st
    } else if line.len() > 0 && line[0] == '\t' {
        if st.lines.len() >= max {
            BlameState { done: true, ..st }
        } else {
            let m = if st.meta.contains_key(st.sha) {
                st.meta[st.sha]
            } else {
                (Seq::empty(), 0)
            };
            BlameState {
                lines: st.lines.push(
                    BlameModel {
                        line_no: st.line_no,
                        commit_id: st.sha,
                        short_id: if st.sha.len() > 8 {
                            st.sha.take(8)
                        } else {
                            st.sha
                        },
                        author: m.0,
                        time: m.1,
                        content: line.skip(1),
                    },
                ),
                ..st
            }
        }
    } else if has_prefix(line, "author "@) {
        let old = if st.meta.contains_key(st.sha) {
            st.meta[st.sha]
        } else {
            (Seq::empty(), 0)
        };
        BlameState { meta: st.meta.insert(st.sha, (line.skip(7), old.1)), ..st }
    } else if has_prefix(line, "author-time "@) {
        let old = if st.meta.contains_key(st.sha) {
            st.meta[st.sha]
        } else {
            (Seq::empty(), 0)
        };
        BlameState {
            meta: st.meta.insert(st.sha, (old.0, i64_or_zero(trim(line.skip(12))))),
            ..st
        }
    } else {
        match blame_header_model(line) {
            Some((sha, n)) => BlameState { sha, line_no: n, ..st },
            None => st,
        }
    }
}

pub open spec fn blame_fold(lines: Seq<Seq<char>>, max: nat) -> BlameState
    decreases lines.len(),
{
    if lines.len() == 0 {
        BlameState {
            meta: Map::empty(),
            lines: Seq::empty(),
            sha: Seq::empty(),
            line_no: 0,
            done: false,
        }
    } else {
        blame_step(blame_fold(lines.drop_last(), max), lines.last(), max)
    }
}

pub open spec fn blame_line_view(b: crate::domain::BlameLine) -> BlameModel {
    BlameModel {
        line_no: b.line_no as nat,
        commit_id: b.commit_id@,
        short_id: b.short_id@,
        author: b.author@,
        time: b.time as int,
        content: b.content@,
    }
}

/// Metadata per commit id, as a list with distinct keys.
struct Meta {
    entries: Vec<(Vec<char>, Vec<char>, i64)>,
}

spec fn meta_rel(e: Seq<(Vec<char>, Vec<char>, i64)>, m: Map<Seq<char>, (Seq<char>, int)>) -> bool {
    &&& forall|i: int, j: int| 0 <= i < j < e.len() ==> e[i].0@ != e[j].0@
    &&& forall|i: int|
        0 <= i < e.len() ==> #[trigger] m.contains_key(e[i].0@) && m[e[i].0@] == (
            e[i].1@,
            e[i].2 as int,
        )
    &&& forall|k: Seq<char>| m.contains_key(k) ==> exists|i: int| 0 <= i < e.len() && #[trigger] e[i].0@ == k
}

proof fn lemma_meta_set(
    old: Seq<(Vec<char>, Vec<char>, i64)>,
    i: int,
    entry: (Vec<char>, Vec<char>, i64),
    m: Map<Seq<char>, (Seq<char>, int)>,
)
    requires
        meta_rel(old, m),
        0 <= i < old.len(),
        old[i].0@ == entry.0@,
    ensures
        meta_rel(old.update(i, entry), m.insert(entry.0@, (entry.1@, entry.2 as int))),
{
    let e = old.update(i, entry);
    let m2 = m.insert(entry.0@, (entry.1@, entry.2 as int));
    assert forall|a: int, b: int| 0 <= a < b < e.len() implies e[a].0@ != e[b].0@ by {
        assert(old[a].0@ != old[b].0@);
    }
    assert forall|a: int| 0 <= a < e.len() implies #[trigger] m2.contains_key(e[a].0@) && m2[e[a].0@]
        == (e[a].1@, e[a].2 as int) by {
        if a != i {
            assert(old[a].0@ != old[i].0@ || a == i);
            if a < i {
                assert(old[a].0@ != old[i].0@);
            } else {
                assert(old[i].0@ != old[a].0@);
            }
        }
    }
    assert forall|k: Seq<char>| m2.contains_key(k) implies exists|a: int| 0 <= a < e.len() && #[trigger] e[a].0@ == k by {
        if k == entry.0@ {
            assert(e[i].0@ == k);
        } else {
            let a = choose|a: int| 0 <= a < old.len() && #[trigger] old[a].0@ == k;
            assert(e[a].0@ == k);
        }
    }
}

proof fn lemma_meta_push(
    old: Seq<(Vec<char>, Vec<char>, i64)>,
    entry: (Vec<char>, Vec<char>, i64),
    m: Map<Seq<char>, (Seq<char>, int)>,
)
    requires
        meta_rel(old, m),
        forall|i: int| 0 <= i < old.len() ==> old[i].0@ != entry.0@,
    ensures
        meta_rel(old.push(entry), m.insert(entry.0@, (entry.1@, entry.2 as int))),
{
    let e = old.push(entry);
    let m2 = m.insert(entry.0@, (entry.1@, entry.2 as int));
    assert forall|a: int, b: int| 0 <= a < b < e.len() implies e[a].0@ != e[b].0@ by {
        if b < old.len() {
            assert(old[a].0@ != old[b].0@);
        }
    }
    assert forall|a: int| 0 <= a < e.len() implies #[trigger] m2.contains_key(e[a].0@) && m2[e[a].0@]
        == (e[a].1@, e[a].2 as int) by {
        if a < old.len() {
            assert(old[a].0@ != entry.0@);
            assert(m.contains_key(old[a].0@));
        }
    }
    assert forall|k: Seq<char>| m2.contains_key(k) implies exists|a: int| 0 <= a < e.len() && #[trigger] e[a].0@ == k by {
        if k == entry.0@ {
            assert(e[old.len() as int].0@ == k);
        } else {
            let a = choose|a: int| 0 <= a < old.len() && #[trigger] old[a].0@ == k;
            assert(e[a].0@ == k);
        }
    }
}

impl Meta {
    fn find(&self, key: &[char]) -> (r: Option<usize>)
        ensures
            match r {
                Some(i) => i < self.entries@.len() && self.entries@[i as int].0@ == key@,
                None => forall|i: int| 0 <= i < self.entries@.len() ==> self.entries@[i].0@ != key@,
            },
    {
        let mut i: usize = 0;
        while i < self.entries.len()
            invariant
                i <= self.entries@.len(),
                forall|j: int| 0 <= j < i ==> self.entries@[j].0@ != key@,
            decreases self.entries@.len() - i,
        {
            if crate::text::chars_eq(self.entries[i].0.as_slice(), key) {
                return Some(i);
            }
            i = i + 1;
        }
        None
    }
}

fn copy_chars(s: &[char]) -> (r: Vec<char>)
    ensures
        r@ == s@,
{
    let r = vec_from_range(s, 0, s.len());
    assert(r@ =~= s@);
    r
}

/// The most lines a blame shows.
pub const MAX_BLAME_LINES: usize = 5000;

/// Parses `git blame --porcelain` output into at most `max_lines` blamed
/// lines (see [`blame_step`]).
pub fn parse_blame_porcelain(out: &str, max_lines: usize) -> (r: Vec<crate::domain::BlameLine>)
    ensures
        Seq::new(r@.len(), |i: int| blame_line_view(r@[i])) == blame_fold(
            crate::text::lines_of(out@),
            max_lines as nat,
        ).lines,
{
    let cs = chars_of(out);
    let lines = crate::text::lines(cs.as_slice());
    let ghost lv = views(lines@);
    let mut meta = Meta { entries: Vec::new() };
    let mut result: Vec<crate::domain::BlameLine> = Vec::new();
    let mut sha: Vec<char> = Vec::new();
    let mut line_no: u32 = 0;
    let ghost mut gm: Map<Seq<char>, (Seq<char>, int)> = Map::empty();
    let mut k: usize = 0;
    assert(lv.take(0) =~= Seq::<Seq<char>>::empty());
    assert(lv.take(lines@.len() as int) =~= lv);
    while k < lines.len()
        invariant
            k <= lines@.len(),
            lv == views(lines@),
            lv.take(lines@.len() as int) == lv,
            meta_rel(meta.entries@, gm),
            ({
                let st = blame_fold(lv.take(k as int), max_lines as nat);
                &&& !st.done
                &&& st.meta == gm
                &&& st.sha == sha@
                &&& st.line_no == line_no as nat
                &&& st.lines == Seq::new(result@.len(), |i: int| blame_line_view(result@[i]))
            }),
        ensures
            blame_fold(lv, max_lines as nat).lines == Seq::new(
                result@.len(),
                |i: int| blame_line_view(result@[i]),
            ),
        decreases lines@.len() - k,
    {
        let line = lines[k].as_slice();
        let ghost prev = blame_fold(lv.take(k as int), max_lines as nat);
        assert(lv.take(k + 1).drop_last() =~= lv.take(k as int));
        assert(lv.take(k + 1).last() == line@);
        if line.len() > 0 && line[0] == '\t' {
            if result.len() >= max_lines {
                proof {
                    let st = blame_fold(lv.take(k + 1), max_lines as nat);
                    assert(st.done);
                    lemma_blame_done_stays(lv, k + 1, max_lines as nat);
                    assert(lv.take(lines@.len() as int) =~= lv);
                }
                break;
            }
            let (author, time): (Vec<char>, i64) = match meta.find(sha.as_slice()) {
                Some(i) => (copy_chars(meta.entries[i].1.as_slice()), meta.entries[i].2),
                None => (Vec::new(), 0),
            };
            let short_len: usize = if sha.len() > 8 {
                8
            } else {
                sha.len()
            };
            let content = vec_from_range(line, 1, line.len());
            let ghost old_res = result@;
            let b = crate::domain::BlameLine {
                line_no,
                commit_id: string_from(sha.as_slice()),
                short_id: crate::text::string_from_range(sha.as_slice(), 0, short_len),
                author: string_from(author.as_slice()),
                time,
                content: string_from(content.as_slice()),
            };
            result.push(b);
            proof {
                assert(content@ =~= line@.skip(1));
                assert(sha@.subrange(0, short_len as int) =~= (if sha@.len() > 8 {
                    sha@.take(8)
                } else {
                    sha@
                }));
                assert(Seq::new(result@.len(), |i: int| blame_line_view(result@[i])) =~= Seq::new(
                    old_res.len(),
                    |i: int| blame_line_view(old_res[i]),
                ).push(blame_line_view(b)));
            }
        } else if starts_with_str(line, "author ") {
            proof {
                reveal_strlit("author ");
            }
            let name = vec_from_range(line, 7, line.len());
            assert(name@ =~= line@.skip(7));
            match meta.find(sha.as_slice()) {
                Some(i) => {
                    let t = meta.entries[i].2;
                    let ghost old_e = meta.entries@;
                    let entry = (copy_chars(sha.as_slice()), name, t);
                    proof {
                        lemma_meta_set(old_e, i as int, entry, gm);
                        gm = gm.insert(sha@, (line@.skip(7), t as int));
                    }
                    meta.entries.set(i, entry);
                },
                None => {
                    let entry = (copy_chars(sha.as_slice()), name, 0i64);
                    proof {
                        lemma_meta_push(meta.entries@, entry, gm);
                        gm = gm.insert(sha@, (line@.skip(7), 0));
                    }
                    meta.entries.push(entry);
                },
            }
        } else if starts_with_str(line, "author-time ") {
            proof {
                reveal_strlit("author-time ");
            }
            let rest = vec_from_range(line, 12, line.len());
            assert(rest@ =~= line@.skip(12));
            let t = crate::text::trimmed(rest.as_slice());
            let v: i64 = match parse_i64(t.as_slice()) {
                Some(v) => v,
                None => 0,
            };
            match meta.find(sha.as_slice()) {
                Some(i) => {
                    let a = copy_chars(meta.entries[i].1.as_slice());
                    let ghost old_e = meta.entries@;
                    let ghost old_a = meta.entries@[i as int].1@;
                    let entry = (copy_chars(sha.as_slice()), a, v);
                    proof {
                        lemma_meta_set(old_e, i as int, entry, gm);
                        gm = gm.insert(sha@, (old_a, v as int));
                    }
                    meta.entries.set(i, entry);
                },
                None => {
                    let entry = (copy_chars(sha.as_slice()), Vec::<char>::new(), v);
                    proof {
                        lemma_meta_push(meta.entries@, entry, gm);
                        gm = gm.insert(sha@, (Seq::empty(), v as int));
                        assert(entry.1@ =~= Seq::<char>::empty());
                    }
                    meta.entries.push(entry);
                },
            }
        } else {
            let ls = string_from(line);
            match parse_blame_header(ls.as_str()) {
                Some((h, n)) => {
                    let hc = chars_of(h.as_str());
                    sha = hc;
                    line_no = n;
                },
                None => {},
            }
        }
        k = k + 1;
    }
    result
}

proof fn lemma_blame_done_stays(lv: Seq<Seq<char>>, k: int, max: nat)
    requires
        0 <= k <= lv.len(),
        blame_fold(lv.take(k), max).done,
    ensures
        blame_fold(lv, max) == blame_fold(lv.take(k), max),
    decreases lv.len() - k,
{
    if k < lv.len() {
        assert(lv.take(k + 1).drop_last() =~= lv.take(k));
        lemma_blame_done_stays(lv, k + 1, max);
    } else {
        assert(lv.take(k) =~= lv);
    }
}

/// A backup's name reads back as the operation and time it was written
/// with: the short name that [`backup_ref_name`] gives (the namespace
/// aside) splits into `op` and `unix`, for an operation whose last
/// `-`-separated piece is not a number, and a time and counter within
/// `i64`.
pub proof fn lemma_backup_name_roundtrip(op: Seq<char>, unix: u64, n: u64)
    requires
        !is_i64_text(split_on(op, '-').last()),
        unix <= i64::MAX,
        n <= i64::MAX,
    ensures
        backup_name_model(op + "-"@ + decimal(unix as nat) + "-"@ + decimal(n as nat)) == (
            op,
            unix as int,
        ),
{
    reveal_strlit("-");
    let dt = decimal(unix as nat);
    let dn = decimal(n as nat);
    lemma_decimal_digits(unix as nat);
    lemma_decimal_digits(n as nat);
    assert(!dt.contains('-')) by {
        if dt.contains('-') {
            let k = choose|k: int| 0 <= k < dt.len() && dt[k] == '-';
            assert(crate::text::is_digit(dt[k]));
        }
    }
    assert(!dn.contains('-')) by {
        if dn.contains('-') {
            let k = choose|k: int| 0 <= k < dn.len() && dn[k] == '-';
            assert(crate::text::is_digit(dn[k]));
        }
    }
    lemma_split_on_without(dt, '-');
    lemma_split_on_without(dn, '-');
    let short = op + "-"@ + dt + "-"@ + dn;
    assert(short =~= (op.push('-') + dt).push('-') + dn);
    lemma_split_on_concat(op.push('-') + dt, dn, '-');
    lemma_split_on_concat(op, dt, '-');
    let p = split_on(op, '-');
    let parts = split_on(short, '-');
    assert(parts =~= p + seq![dt] + seq![dn]);
    assert(signed_value(dt) == Some(unix as int));
    assert(signed_value(dn) == Some(n as int));
    assert(is_i64_text(dt));
    crate::text::lemma_split_on_nonempty(op, '-');
    assert(parts.drop_last() =~= p + seq![dt]);
    assert((p + seq![dt]).drop_last() =~= p);
    assert(numeric_tail(p) == 0);
    assert(is_i64_text(dn));
    assert(parts.last() == dn);
    assert((p + seq![dt]).last() == dt);
    assert(numeric_tail(p + seq![dt]) == 1 + numeric_tail(p));
    assert(numeric_tail(parts) == 1 + numeric_tail(parts.drop_last()));
    assert(numeric_tail(parts) == 2);
    assert(parts.take(parts.len() - 2) =~= p);
    assert(parts[parts.len() - 2] == dt);
    lemma_join_split(op, '-');
    assert("-"@ =~= seq!['-']);
}

} // verus!
