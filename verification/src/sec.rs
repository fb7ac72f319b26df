//! Validation of what reaches the request pipeline: header keys and values
//! against injection, filenames against path traversal, and URLs against
//! disallowed schemes and private or loopback targets. Everything here is
//! checked before a request is dispatched.

use vstd::prelude::*;
use vstd::string::{StrSliceExecFns, StringSliceAdditionalSpecFns};

use crate::error::ApiError;

verus! {

/// A Unicode control character: the two blocks the character class
/// `is_control` names.
pub open spec fn is_ctl_char(c: char) -> bool {
    (c as u32) < 0x20 || (0x7f <= (c as u32) && (c as u32) <= 0x9f)
}

/// A Unicode whitespace character, as trimming removes them.
pub open spec fn is_space_char(c: char) -> bool {
    ||| (0x09 <= (c as u32) && (c as u32) <= 0x0d)
    ||| (c as u32) == 0x20
    ||| (c as u32) == 0x85
    ||| (c as u32) == 0xa0
    ||| (c as u32) == 0x1680
    ||| (0x2000 <= (c as u32) && (c as u32) <= 0x200a)
    ||| (c as u32) == 0x2028
    ||| (c as u32) == 0x2029
    ||| (c as u32) == 0x202f
    ||| (c as u32) == 0x205f
    ||| (c as u32) == 0x3000
}

pub open spec fn is_digit_char(c: char) -> bool {
    0x30 <= (c as u32) && (c as u32) <= 0x39
}

pub open spec fn digit_val(c: char) -> int {
    (c as u32) - 0x30
}

fn char_is_ctl(c: char) -> (r: bool)
    ensures
        r == is_ctl_char(c),
{
    let u = c as u32;
    u < 0x20 || (0x7f <= u && u <= 0x9f)
}

fn char_is_space(c: char) -> (r: bool)
    ensures
        r == is_space_char(c),
{
    let u = c as u32;
    (0x09 <= u && u <= 0x0d) || u == 0x20 || u == 0x85 || u == 0xa0 || u == 0x1680 || (0x2000 <= u
        && u <= 0x200a) || u == 0x2028 || u == 0x2029 || u == 0x202f || u == 0x205f || u == 0x3000
}

fn char_is_digit(c: char) -> (r: bool)
    ensures
        r == is_digit_char(c),
{
    let u = c as u32;
    0x30 <= u && u <= 0x39
}

/// Every character is whitespace; true of the empty text, so this is also
/// "trims to nothing".
pub open spec fn all_whitespace(s: Seq<char>) -> bool {
    forall|i: int| 0 <= i < s.len() ==> is_space_char(#[trigger] s[i])
}

pub open spec fn has_ctl_char(s: Seq<char>) -> bool {
    exists|i: int| 0 <= i < s.len() && is_ctl_char(#[trigger] s[i])
}

pub open spec fn has_crlf(s: Seq<char>) -> bool {
    exists|i: int| 0 <= i < s.len() && (#[trigger] s[i] == '\r' || s[i] == '\n')
}

pub open spec fn has_ctl_other_than_tab(s: Seq<char>) -> bool {
    exists|i: int| 0 <= i < s.len() && is_ctl_char(#[trigger] s[i]) && s[i] != '\t'
}

/// Two adjacent dots somewhere: a parent-directory reference.
pub open spec fn has_dotdot(s: Seq<char>) -> bool {
    exists|i: int| 0 <= i && i + 1 < s.len() && #[trigger] s[i] == '.' && s[i + 1] == '.'
}

fn str_all_whitespace(s: &str) -> (r: bool)
    ensures
        r == all_whitespace(s@),
{
    let n = s.unicode_len();
    let mut i: usize = 0;
    while i < n
        invariant
            0 <= i <= n == s@.len(),
            forall|j: int| 0 <= j < i ==> is_space_char(#[trigger] s@[j]),
        decreases n - i,
    {
        if !char_is_space(s.get_char(i)) {
            return false;
        }
        i += 1;
    }
    true
}

fn str_has_ctl(s: &str) -> (r: bool)
    ensures
        r == has_ctl_char(s@),
{
    let n = s.unicode_len();
    let mut i: usize = 0;
    while i < n
        invariant
            0 <= i <= n == s@.len(),
            forall|j: int| 0 <= j < i ==> !is_ctl_char(#[trigger] s@[j]),
        decreases n - i,
    {
        if char_is_ctl(s.get_char(i)) {
            return true;
        }
        i += 1;
    }
    false
}

fn str_has_crlf(s: &str) -> (r: bool)
    ensures
        r == has_crlf(s@),
{
    let n = s.unicode_len();
    let mut i: usize = 0;
    while i < n
        invariant
            0 <= i <= n == s@.len(),
            forall|j: int| 0 <= j < i ==> !(#[trigger] s@[j] == '\r' || s@[j] == '\n'),
        decreases n - i,
    {
        let c = s.get_char(i);
        if c == '\r' || c == '\n' {
            return true;
        }
        i += 1;
    }
    false
}

fn str_has_ctl_other_than_tab(s: &str) -> (r: bool)
    ensures
        r == has_ctl_other_than_tab(s@),
{
    let n = s.unicode_len();
    let mut i: usize = 0;
    while i < n
        invariant
            0 <= i <= n == s@.len(),
            forall|j: int| 0 <= j < i ==> !(is_ctl_char(#[trigger] s@[j]) && s@[j] != '\t'),
        decreases n - i,
    {
        let c = s.get_char(i);
        if char_is_ctl(c) && c != '\t' {
            return true;
        }
        i += 1;
    }
    false
}

fn str_has_dotdot(s: &str) -> (r: bool)
    ensures
        r == has_dotdot(s@),
{
    let n = s.unicode_len();
    if n < 2 {
        return false;
    }
    let mut i: usize = 0;
    while i + 1 < n
        invariant
            0 <= i < n == s@.len(),
            n >= 2,
            forall|j: int| 0 <= j < i ==> !(#[trigger] s@[j] == '.' && s@[j + 1] == '.'),
        decreases n - i,
    {
        if s.get_char(i) == '.' && s.get_char(i + 1) == '.' {
            return true;
        }
        i += 1;
    }
    false
}

fn str_eq(a: &str, b: &str) -> (r: bool)
    ensures
        r == (a@ == b@),
{
    let n = a.unicode_len();
    let m = b.unicode_len();
    if n != m {
        return false;
    }
    let mut i: usize = 0;
    while i < n
        invariant
            0 <= i <= n == a@.len(),
            n == b@.len(),
            forall|j: int| 0 <= j < i ==> a@[j] == b@[j],
        decreases n - i,
    {
        if a.get_char(i) != b.get_char(i) {
            return false;
        }
        i += 1;
    }
    proof {
        assert(a@ =~= b@);
    }
    true
}

pub open spec fn spec_ends_with(s: Seq<char>, suffix: Seq<char>) -> bool {
    s.len() >= suffix.len() && s.skip(s.len() - suffix.len()) == suffix
}

fn str_ends_with(s: &str, suffix: &str) -> (r: bool)
    ensures
        r == spec_ends_with(s@, suffix@),
{
    let n = s.unicode_len();
    let m = suffix.unicode_len();
    if n < m {
        return false;
    }
    let k = n - m;
    let mut j: usize = 0;
    while j < m
        invariant
            0 <= j <= m == suffix@.len(),
            n == s@.len(),
            k == n - m,
            forall|t: int| 0 <= t < j ==> s@[k + t] == suffix@[t],
        decreases m - j,
    {
        if s.get_char(k + j) != suffix.get_char(j) {
            proof {
                assert(s@.skip(k as int)[j as int] != suffix@[j as int]);
            }
            return false;
        }
        j += 1;
    }
    proof {
        assert(s@.skip(k as int) =~= suffix@);
    }
    true
}

/// How many leading whitespace characters trimming removes.
pub open spec fn trim_start_len(s: Seq<char>) -> int
    decreases s.len(),
{
    if s.len() == 0 {
        0
    } else if is_space_char(s[0]) {
        1 + trim_start_len(s.drop_first())
    } else {
        0
    }
}

/// How many trailing whitespace characters trimming removes.
pub open spec fn trim_end_len(s: Seq<char>) -> int
    decreases s.len(),
{
    if s.len() == 0 {
        0
    } else if is_space_char(s.last()) {
        1 + trim_end_len(s.drop_last())
    } else {
        0
    }
}

/// The text with leading and trailing whitespace removed.
pub open spec fn spec_trim(s: Seq<char>) -> Seq<char> {
    if all_whitespace(s) {
        Seq::empty()
    } else {
        s.subrange(trim_start_len(s), s.len() - trim_end_len(s))
    }
}

proof fn lemma_trim_start_len(s: Seq<char>, k: int)
    requires
        0 <= k <= s.len(),
        forall|j: int| 0 <= j < k ==> is_space_char(#[trigger] s[j]),
        k == s.len() || !is_space_char(s[k]),
    ensures
        trim_start_len(s) == k,
    decreases k,
{
    if s.len() == 0 {
    } else if k == 0 {
    } else {
        assert(is_space_char(s[0]));
        lemma_trim_start_len(s.drop_first(), k - 1);
    }
}

proof fn lemma_trim_end_len(s: Seq<char>, k: int)
    requires
        0 <= k <= s.len(),
        forall|j: int| s.len() - k <= j < s.len() ==> is_space_char(#[trigger] s[j]),
        k == s.len() || !is_space_char(s[s.len() - k - 1]),
    ensures
        trim_end_len(s) == k,
    decreases k,
{
    if s.len() == 0 {
    } else if k == 0 {
    } else {
        assert(is_space_char(s.last()));
        assert(s.drop_last().len() == s.len() - 1);
        assert(forall|j: int|
            s.drop_last().len() - (k - 1) <= j < s.drop_last().len() ==> is_space_char(
                #[trigger] s.drop_last()[j],
            ));
        lemma_trim_end_len(s.drop_last(), k - 1);
    }
}

/// Trimming, as an executable function: exactly the text between the first
/// and the last non-whitespace character.
fn trim_str(s: &str) -> (r: String)
    ensures
        r@ == spec_trim(s@),
{
    let n = s.unicode_len();
    let mut a: usize = 0;
    while a < n && char_is_space(s.get_char(a))
        invariant
            0 <= a <= n == s@.len(),
            forall|j: int| 0 <= j < a ==> is_space_char(#[trigger] s@[j]),
        decreases n - a,
    {
        a += 1;
    }
    if a == n {
        proof {
            assert(all_whitespace(s@));
        }
        return String::new();
    }
    let mut b: usize = n;
    while b > a && char_is_space(s.get_char(b - 1))
        invariant
            a < n == s@.len(),
            a <= b <= n,
            !is_space_char(s@[a as int]),
            forall|j: int| b <= j < n ==> is_space_char(#[trigger] s@[j]),
        decreases b,
    {
        b -= 1;
    }
    proof {
        assert(b > a);
        assert(!is_space_char(s@[a as int]));
        assert(!all_whitespace(s@));
        lemma_trim_start_len(s@, a as int);
        lemma_trim_end_len(s@, n - b as int);
    }
    let out = s.substring_char(a, b);
    out.to_owned()
}

/// The first failing header check, with its message, or nothing when the
/// key and value are acceptable: the key must have substance and no control
/// characters, the value no line breaks and no control characters beyond
/// tab, and both must stay within their length bounds in bytes.
pub open spec fn spec_header_check(key: Seq<char>, value: Seq<char>) -> Option<Seq<char>> {
    if all_whitespace(key) {
        Some("Header key cannot be empty"@)
    } else if has_ctl_char(key) {
        Some("Header key contains invalid characters"@)
    } else if has_crlf(value) {
        Some("Header contains CRLF sequences"@)
    } else if has_ctl_other_than_tab(value) {
        Some("Header contains invalid control characters"@)
    } else if vstd::utf8::encode_utf8(key).len() as usize > 1024 {
        Some("Header key too long"@)
    } else if vstd::utf8::encode_utf8(value).len() as usize > 8192 {
        Some("Header value too long"@)
    } else {
        None
    }
}

/// Validation of HTTP header keys and values before they join a request.
#[derive(Debug)]
pub struct HeaderValidator;

impl HeaderValidator {
    /// Accepts a header exactly when `spec_header_check` finds nothing
    /// wrong, and otherwise reports that check's message.
    pub fn validate_header(key: &str, value: &str) -> (r: Result<(), ApiError>)
        ensures
            match spec_header_check(key@, value@) {
                Option::None => r is Ok,
                Option::Some(m) => r matches Err(e) && e matches ApiError::Other(msg) && msg@ == m,
            },
    {
        if str_all_whitespace(key) {
            return Err(ApiError::Other("Header key cannot be empty".to_owned()));
        }
        if str_has_ctl(key) {
            return Err(ApiError::Other("Header key contains invalid characters".to_owned()));
        }
        if str_has_crlf(value) {
            return Err(ApiError::Other("Header contains CRLF sequences".to_owned()));
        }
        if str_has_ctl_other_than_tab(value) {
            return Err(ApiError::Other("Header contains invalid control characters".to_owned()));
        }
        if key.len() > 1024 {
            return Err(ApiError::Other("Header key too long".to_owned()));
        }
        if value.len() > 8192 {
            return Err(ApiError::Other("Header value too long".to_owned()));
        }
        Ok(())
    }

    /// Splits a "Key: Value" line at its first colon, trims both sides, and
    /// validates them; a line without a colon is rejected.
    pub fn parse_and_validate(header: &str) -> (r: Result<(String, String), ApiError>)
        ensures
            ({
                let s = header@;
                let fc = first_index_of(s, ':');
                if fc == s.len() {
                    r matches Err(e) && e matches ApiError::Other(m) && m@
                        == "Invalid header format, expected 'Key:Value'"@
                } else {
                    let key = spec_trim(s.take(fc));
                    let value = spec_trim(s.skip(fc + 1));
                    match spec_header_check(key, value) {
                        Option::None => r matches Ok(kv) && kv.0@ == key && kv.1@ == value,
                        Option::Some(m) => r matches Err(e) && e matches ApiError::Other(msg)
                            && msg@ == m,
                    }
                }
            }),
    {
        let n = header.unicode_len();
        let fc = find_char(header, ':');
        if fc == n {
            return Err(ApiError::Other("Invalid header format, expected 'Key:Value'".to_owned()));
        }
        let key_part = header.substring_char(0, fc);
        let value_part = header.substring_char(fc + 1, n);
        proof {
            assert(key_part@ == header@.take(first_index_of(header@, ':')));
            assert(value_part@ =~= header@.skip(first_index_of(header@, ':') + 1));
        }
        let key = trim_str(key_part);
        let value = trim_str(value_part);
        match HeaderValidator::validate_header(key.as_str(), value.as_str()) {
            Ok(()) => Ok((key, value)),
            Err(e) => Err(e),
        }
    }
}

/// The position of the first occurrence of `c`, or the length when there is
/// none.
pub open spec fn first_index_of(s: Seq<char>, c: char) -> int
    decreases s.len(),
{
    if s.len() == 0 {
        0
    } else if s[0] == c {
        0
    } else {
        1 + first_index_of(s.drop_first(), c)
    }
}

proof fn lemma_first_index_of(s: Seq<char>, c: char, k: int)
    requires
        0 <= k <= s.len(),
        forall|j: int| 0 <= j < k ==> #[trigger] s[j] != c,
        k == s.len() || s[k] == c,
    ensures
        first_index_of(s, c) == k,
    decreases k,
{
    if s.len() == 0 {
    } else if k == 0 {
    } else {
        assert(s[0] != c);
        lemma_first_index_of(s.drop_first(), c, k - 1);
    }
}

fn find_char(s: &str, c: char) -> (r: usize)
    ensures
        r == first_index_of(s@, c),
        r <= s@.len(),
        r < s@.len() ==> s@[r as int] == c,
        forall|j: int| 0 <= j < r ==> #[trigger] s@[j] != c,
{
    let n = s.unicode_len();
    let mut i: usize = 0;
    while i < n
        invariant
            0 <= i <= n == s@.len(),
            forall|j: int| 0 <= j < i ==> #[trigger] s@[j] != c,
        decreases n - i,
    {
        if s.get_char(i) == c {
            proof {
                lemma_first_index_of(s@, c, i as int);
            }
            return i;
        }
        i += 1;
    }
    proof {
        lemma_first_index_of(s@, c, n as int);
    }
    n
}

/// The first failing filename check, with its message: no absolute paths,
/// no parent-directory references, and no blank names.
pub open spec fn spec_filename_check(s: Seq<char>) -> Option<Seq<char>> {
    if s.len() > 0 && s[0] == '/' {
        Some("Absolute paths not allowed"@)
    } else if has_dotdot(s) {
        Some("Parent directory references not allowed"@)
    } else if all_whitespace(s) {
        Some("Empty filename not allowed"@)
    } else {
        None
    }
}

/// Validation of file names against path traversal before anything is
/// written under a storage directory.
#[derive(Debug)]
pub struct PathValidator;

impl PathValidator {
    /// Accepts a filename exactly when `spec_filename_check` finds nothing
    /// wrong, and then returns it unchanged; a name that starts at the
    /// filesystem root, reaches for a parent directory or is blank is
    /// rejected with that check's message.
    pub fn sanitize_filename(filename: &str) -> (r: Result<String, ApiError>)
        ensures
            match spec_filename_check(filename@) {
                Option::None => r matches Ok(f) && f@ == filename@,
                Option::Some(m) => r matches Err(e) && e matches ApiError::Other(msg) && msg@ == m,
            },
    {
        let n = filename.unicode_len();
        if n > 0 && filename.get_char(0) == '/' {
            return Err(ApiError::Other("Absolute paths not allowed".to_owned()));
        }
        if str_has_dotdot(filename) {
            return Err(ApiError::Other("Parent directory references not allowed".to_owned()));
        }
        if str_all_whitespace(filename) {
            return Err(ApiError::Other("Empty filename not allowed".to_owned()));
        }
        Ok(filename.to_owned())
    }
}


/// What URL validation reads of a parsed URL, as plain values: the
/// lower-cased scheme and the serialized host, when the URL has one.
#[derive(Debug)]
pub struct UrlParts {
    pub scheme: String,
    pub host: Option<String>,
}

/// The scheme of the URL that the text parses to, lower-cased, or nothing
/// when the text is not an absolute URL; a pure function of the text.
pub uninterp spec fn url_scheme_of(s: Seq<char>) -> Option<Seq<char>>;

/// The serialized host of the URL that the text parses to, or nothing when
/// the URL has no host; a pure function of the text.
pub uninterp spec fn url_host_of(s: Seq<char>) -> Option<Seq<char>>;

/// Relies on url::Url::parse, Url::scheme and Url::host_str: parsing is a
/// pure function of the input text; scheme() returns the scheme lower-cased
/// and host_str() the serialized host of URLs that have one.
#[verifier::external_body]
fn parse_url_parts(s: &str) -> (r: Option<UrlParts>)
    ensures
        (r is Some) == (url_scheme_of(s@) is Some),
        r matches Some(p) ==> {
            &&& url_scheme_of(s@) matches Some(sc) && p.scheme@ == sc
            &&& match p.host {
                Option::Some(h) => url_host_of(s@) matches Some(hv) && h@ == hv,
                Option::None => url_host_of(s@) is None,
            }
        },
{
    match url::Url::parse(s) {
        Ok(u) => {
            let host = match u.host_str() {
                Some(h) => Some(h.to_string()),
                None => None,
            };
            Some(UrlParts { scheme: u.scheme().to_string(), host })
        },
        Err(_) => None,
    }
}

/// Only the web schemes may pass.
pub open spec fn spec_scheme_allowed(s: Seq<char>) -> bool {
    s == "http"@ || s == "https"@
}

fn scheme_allowed(scheme: &str) -> (r: bool)
    ensures
        r == spec_scheme_allowed(scheme@),
{
    str_eq(scheme, "http") || str_eq(scheme, "https")
}

/// The pieces of the text between its dots, in order.
pub open spec fn split_dots_from(h: Seq<char>, start: int, cur: int) -> Seq<Seq<char>>
    decreases h.len() - cur,
{
    if cur < start || start < 0 || cur > h.len() {
        Seq::empty()
    } else if cur == h.len() {
        seq![h.subrange(start, cur)]
    } else if h[cur] == '.' {
        seq![h.subrange(start, cur)] + split_dots_from(h, cur + 1, cur + 1)
    } else {
        split_dots_from(h, start, cur + 1)
    }
}

pub open spec fn split_dots(h: Seq<char>) -> Seq<Seq<char>> {
    split_dots_from(h, 0, 0)
}

fn split_dots_str(s: &str) -> (parts: Vec<String>)
    ensures
        parts.deep_view() == split_dots(s@),
{
    let n = s.unicode_len();
    let mut parts: Vec<String> = Vec::new();
    let mut start: usize = 0;
    let mut cur: usize = 0;
    while cur < n
        invariant
            0 <= start <= cur <= n,
            n == s@.len(),
            split_dots(s@) == parts.deep_view() + split_dots_from(
                s@,
                start as int,
                cur as int,
            ),
        decreases n - cur,
    {
        let c = s.get_char(cur);
        if c == '.' {
            let ghost old_parts = parts.deep_view();
            let part = s.substring_char(start, cur).to_owned();
            parts.push(part);
            proof {
                assert(parts.deep_view() =~~= old_parts.push(
                    s@.subrange(start as int, cur as int),
                ));
                assert(old_parts.push(s@.subrange(start as int, cur as int)) + split_dots_from(
                    s@,
                    cur as int + 1,
                    cur as int + 1,
                ) =~~= old_parts + (seq![s@.subrange(start as int, cur as int)] + split_dots_from(
                    s@,
                    cur as int + 1,
                    cur as int + 1,
                )));
            }
            start = cur + 1;
        }
        cur += 1;
    }
    let ghost old_parts = parts.deep_view();
    let last = s.substring_char(start, n).to_owned();
    parts.push(last);
    proof {
        assert(parts.deep_view() =~~= old_parts.push(s@.subrange(start as int, n as int)));
        assert(old_parts.push(s@.subrange(start as int, n as int)) =~~= old_parts + seq![
            s@.subrange(start as int, n as int),
        ]);
    }
    parts
}

/// The numeric value of a run of decimal digits.
pub open spec fn num_val(s: Seq<char>) -> int
    decreases s.len(),
{
    if s.len() == 0 {
        0
    } else {
        num_val(s.drop_last()) * 10 + digit_val(s.last())
    }
}

/// A host piece that can stand in a dotted-quad address: one to three
/// decimal digits naming a value up to 255.
pub open spec fn is_quad_part(p: Seq<char>) -> bool {
    &&& 1 <= p.len() <= 3
    &&& (forall|i: int| 0 <= i < p.len() ==> is_digit_char(#[trigger] p[i]))
    &&& num_val(p) <= 255
}

/// The four byte values of a host that is a dotted-quad address, or nothing
/// when the host is not one.
pub open spec fn spec_ipv4(h: Seq<char>) -> Option<(int, int, int, int)> {
    let parts = split_dots(h);
    if parts.len() == 4 && is_quad_part(parts[0]) && is_quad_part(parts[1]) && is_quad_part(
        parts[2],
    ) && is_quad_part(parts[3]) {
        Some((num_val(parts[0]), num_val(parts[1]), num_val(parts[2]), num_val(parts[3])))
    } else {
        None
    }
}

/// Addresses a client must not be steered to: loopback, the private ranges
/// and the link-local range.
pub open spec fn spec_blocked_quad(a: int, b: int) -> bool {
    ||| a == 127
    ||| a == 10
    ||| (a == 172 && 16 <= b && b <= 31)
    ||| (a == 192 && b == 168)
    ||| (a == 169 && b == 254)
}

pub open spec fn spec_blocked_ipv4(h: Seq<char>) -> bool {
    match spec_ipv4(h) {
        Option::Some((a, b, c, d)) => spec_blocked_quad(a, b),
        Option::None => false,
    }
}

/// Parses one piece of a dotted-quad address.
fn quad_part_val(p: &str) -> (r: Option<u8>)
    ensures
        match r {
            Option::Some(v) => is_quad_part(p@) && v as int == num_val(p@),
            Option::None => !is_quad_part(p@),
        },
{
    let n = p.unicode_len();
    if n < 1 || n > 3 {
        return None;
    }
    let mut v: u32 = 0;
    let mut i: usize = 0;
    while i < n
        invariant
            0 <= i <= n == p@.len(),
            n <= 3,
            forall|j: int| 0 <= j < i ==> is_digit_char(#[trigger] p@[j]),
            v == num_val(p@.take(i as int)),
            i == 0 ==> v == 0,
            i == 1 ==> v <= 9,
            i == 2 ==> v <= 99,
            i == 3 ==> v <= 999,
        decreases n - i,
    {
        let c = p.get_char(i);
        if !char_is_digit(c) {
            return None;
        }
        proof {
            assert(p@.take(i as int + 1).drop_last() =~= p@.take(i as int));
            assert(p@.take(i as int + 1).last() == p@[i as int]);
        }
        v = v * 10 + (c as u32 - 0x30);
        i += 1;
    }
    proof {
        assert(p@.take(n as int) =~= p@);
    }
    if v <= 255 {
        Some(v as u8)
    } else {
        None
    }
}

/// Whether the serialized host is a dotted-quad address in a blocked range.
fn host_is_blocked_ipv4(h: &str) -> (r: bool)
    ensures
        r == spec_blocked_ipv4(h@),
{
    let parts = split_dots_str(h);
    if parts.len() != 4 {
        return false;
    }
    proof {
        assert(parts.deep_view()[0] == parts@[0]@);
        assert(parts.deep_view()[1] == parts@[1]@);
        assert(parts.deep_view()[2] == parts@[2]@);
        assert(parts.deep_view()[3] == parts@[3]@);
    }
    let a = match quad_part_val(parts[0].as_str()) {
        Some(v) => v,
        None => {
            return false;
        },
    };
    let b = match quad_part_val(parts[1].as_str()) {
        Some(v) => v,
        None => {
            return false;
        },
    };
    match quad_part_val(parts[2].as_str()) {
        Some(_) => {},
        None => {
            return false;
        },
    }
    match quad_part_val(parts[3].as_str()) {
        Some(_) => {},
        None => {
            return false;
        },
    }
    a == 127 || a == 10 || (a == 172 && 16 <= b && b <= 31) || (a == 192 && b == 168) || (a == 169
        && b == 254)
}

/// The hosts a request may be sent to: not the local machine's names, not a
/// blocked dotted-quad address, and not the loopback address in its
/// bracketed form.
pub open spec fn spec_host_allowed(h: Seq<char>) -> bool {
    &&& !(h == "localhost"@)
    &&& !spec_ends_with(h, ".local"@)
    &&& !spec_blocked_ipv4(h)
    &&& !(h == "[::1]"@)
}

fn host_allowed(h: &str) -> (r: bool)
    ensures
        r == spec_host_allowed(h@),
{
    if str_eq(h, "localhost") {
        return false;
    }
    if str_ends_with(h, ".local") {
        return false;
    }
    if host_is_blocked_ipv4(h) {
        return false;
    }
    if str_eq(h, "[::1]") {
        return false;
    }
    true
}

/// What validating one URL text must conclude, given the scheme and host
/// that parsing it yields.
pub open spec fn url_check_post(s: Seq<char>, r: Result<UrlParts, ApiError>) -> bool {
    match url_scheme_of(s) {
        Option::None => r matches Err(e) && e matches ApiError::Other(m) && m@
            == "Invalid URL format"@,
        Option::Some(scheme) => {
            if !spec_scheme_allowed(scheme) {
                r matches Err(e) && e matches ApiError::Other(m) && m@
                    == "Only HTTP/HTTPS URLs allowed"@
            } else {
                match url_host_of(s) {
                    Option::Some(h) => {
                        if h == "localhost"@ || spec_ends_with(h, ".local"@) {
                            r matches Err(e) && e matches ApiError::Other(m) && m@
                                == "Local domains not allowed"@
                        } else if spec_blocked_ipv4(h) {
                            r matches Err(e) && e matches ApiError::Other(m) && m@
                                == "Private IP addresses not allowed"@
                        } else if h == "[::1]"@ {
                            r matches Err(e) && e matches ApiError::Other(m) && m@
                                == "Loopback addresses not allowed"@
                        } else {
                            r matches Ok(p) && p.scheme@ == scheme && (p.host matches Some(hs)
                                && hs@ == h)
                        }
                    },
                    Option::None => r matches Ok(p) && p.scheme@ == scheme && p.host is None,
                }
            }
        },
    }
}

/// Validation of URLs before a request is dispatched: the text must parse,
/// carry a web scheme, and not point at the local machine or a private
/// network.
#[derive(Debug)]
pub struct UrlValidator;

impl UrlValidator {
    /// Accepts a URL exactly when it parses, its scheme is http or https,
    /// and its host, when it has one, is allowed; the accepted URL's scheme
    /// and host come back as plain values.
    pub fn validate(url_str: &str) -> (r: Result<UrlParts, ApiError>)
        ensures
            url_check_post(url_str@, r),
    {
        let parts = match parse_url_parts(url_str) {
            Some(p) => p,
            None => {
                return Err(ApiError::Other("Invalid URL format".to_owned()));
            },
        };
        if !scheme_allowed(parts.scheme.as_str()) {
            return Err(ApiError::Other("Only HTTP/HTTPS URLs allowed".to_owned()));
        }
        match &parts.host {
            Some(h) => {
                if str_eq(h.as_str(), "localhost") || str_ends_with(h.as_str(), ".local") {
                    return Err(ApiError::Other("Local domains not allowed".to_owned()));
                }
                if host_is_blocked_ipv4(h.as_str()) {
                    return Err(ApiError::Other("Private IP addresses not allowed".to_owned()));
                }
                if str_eq(h.as_str(), "[::1]") {
                    return Err(ApiError::Other("Loopback addresses not allowed".to_owned()));
                }
            },
            None => {},
        }
        Ok(parts)
    }
}

} // verus!

