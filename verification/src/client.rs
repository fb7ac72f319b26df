//! The request side of the runtime: the header map with case-insensitive,
//! last-write-wins keys, the request descriptor the transport receives, the
//! client and its builder, and the classification of response statuses.
//!
//! Sending a request over the network is the embedding program's work: it
//! takes a prepared descriptor, performs the attempt, and hands the status
//! and body back to the verified functions here.

use vstd::prelude::*;
use crate::config::Config;
use crate::error::ApiError;
use crate::plugin::PluginManager;

verus! {

/// The case-folded code of a character: ASCII letters compare alike in
/// either case, every other character as itself.
pub open spec fn lower_code(c: char) -> u32 {
    if 0x41 <= (c as u32) && (c as u32) <= 0x5a {
        ((c as u32) + 32) as u32
    } else {
        (c as u32)
    }
}

/// Header-key equality: equal length and equal case-folded codes.
pub open spec fn eq_nocase(a: Seq<char>, b: Seq<char>) -> bool {
    a.len() == b.len() && forall|i: int| 0 <= i < a.len() ==> lower_code(#[trigger] a[i])
        == lower_code(b[i])
}

fn char_lower_code(c: char) -> (r: u32)
    ensures
        r == lower_code(c),
{
    let u = c as u32;
    if 0x41 <= u && u <= 0x5a {
        u + 32
    } else {
        u
    }
}

fn str_eq_nocase(a: &str, b: &str) -> (r: bool)
    ensures
        r == eq_nocase(a@, b@),
{
    let n = vstd::string::StrSliceExecFns::unicode_len(a);
    let m = vstd::string::StrSliceExecFns::unicode_len(b);
    if n != m {
        return false;
    }
    let mut i: usize = 0;
    while i < n
        invariant
            0 <= i <= n == a@.len(),
            n == b@.len(),
            forall|j: int| 0 <= j < i ==> lower_code(#[trigger] a@[j]) == lower_code(b@[j]),
        decreases n - i,
    {
        let ca = vstd::string::StrSliceExecFns::get_char(a, i);
        let cb = vstd::string::StrSliceExecFns::get_char(b, i);
        if char_lower_code(ca) != char_lower_code(cb) {
            return false;
        }
        i += 1;
    }
    true
}

/// The position of the entry whose key matches, or the length when none
/// does.
pub open spec fn key_index(entries: Seq<(Seq<char>, Seq<char>)>, k: Seq<char>) -> int
    decreases entries.len(),
{
    if entries.len() == 0 {
        0
    } else if eq_nocase(entries[0].0, k) {
        0
    } else {
        1 + key_index(entries.drop_first(), k)
    }
}

/// The value stored under a key, compared case-insensitively.
pub open spec fn spec_get(entries: Seq<(Seq<char>, Seq<char>)>, k: Seq<char>) -> Option<Seq<char>> {
    let i = key_index(entries, k);
    if i == entries.len() {
        None
    } else {
        Some(entries[i].1)
    }
}

proof fn lemma_key_index_props(entries: Seq<(Seq<char>, Seq<char>)>, k: Seq<char>)
    ensures
        0 <= key_index(entries, k) <= entries.len(),
        key_index(entries, k) < entries.len() ==> eq_nocase(entries[key_index(entries, k)].0, k),
        forall|j: int| 0 <= j < key_index(entries, k) ==> !eq_nocase(#[trigger] entries[j].0, k),
    decreases entries.len(),
{
    if entries.len() > 0 && !eq_nocase(entries[0].0, k) {
        lemma_key_index_props(entries.drop_first(), k);
        assert forall|j: int| 0 <= j < key_index(entries, k) implies !eq_nocase(
            #[trigger] entries[j].0,
            k,
        ) by {
            if j >= 1 {
                assert(entries[j] == entries.drop_first()[j - 1]);
            }
        }
    }
}

proof fn lemma_key_index_at(entries: Seq<(Seq<char>, Seq<char>)>, k: Seq<char>, at: int)
    requires
        0 <= at <= entries.len(),
        forall|j: int| 0 <= j < at ==> !eq_nocase(#[trigger] entries[j].0, k),
        at == entries.len() || eq_nocase(entries[at].0, k),
    ensures
        key_index(entries, k) == at,
    decreases at,
{
    if entries.len() == 0 {
    } else if at == 0 {
    } else {
        assert(!eq_nocase(entries[0].0, k));
        lemma_key_index_at(entries.drop_first(), k, at - 1);
    }
}

/// A header multimap flattened to a map: keys are looked up
/// case-insensitively, each key holds at most one value, and a new value
/// under an existing key replaces the old one.
#[derive(Debug)]
pub struct HeaderMap {
    pub entries: Vec<(String, String)>,
}

impl HeaderMap {
    /// No two entries share a key, compared case-insensitively.
    pub open spec fn wf(&self) -> bool {
        forall|i: int, j: int|
            0 <= i < j < self.entries.deep_view().len() ==> !eq_nocase(
                #[trigger] self.entries.deep_view()[i].0,
                #[trigger] self.entries.deep_view()[j].0,
            )
    }

    pub open spec fn spec_len(&self) -> nat {
        self.entries.deep_view().len()
    }

    pub fn new() -> (r: HeaderMap)
        ensures
            r.entries.deep_view() == Seq::<(Seq<char>, Seq<char>)>::empty(),
            r.wf(),
    {
        let r = HeaderMap { entries: Vec::new() };
        proof {
            assert(r.entries.deep_view() =~= Seq::<(Seq<char>, Seq<char>)>::empty());
        }
        r
    }

    pub fn len(&self) -> (r: usize)
        ensures
            r == self.spec_len(),
    {
        proof {
            assert(self.entries.deep_view().len() == self.entries@.len());
        }
        self.entries.len()
    }

    /// The value under a key, compared case-insensitively.
    pub fn get(&self, key: &str) -> (r: Option<&String>)
        ensures
            match r {
                Option::Some(v) => spec_get(self.entries.deep_view(), key@) == Some(v@),
                Option::None => spec_get(self.entries.deep_view(), key@) is None,
            },
    {
        let ghost ev = self.entries.deep_view();
        let mut i: usize = 0;
        while i < self.entries.len()
            invariant
                ev == self.entries.deep_view(),
                0 <= i <= self.entries@.len() == ev.len(),
                forall|j: int| 0 <= j < i ==> !eq_nocase(#[trigger] ev[j].0, key@),
            decreases self.entries@.len() - i,
        {
            proof {
                assert(ev[i as int].0 == self.entries@[i as int].0@);
            }
            if str_eq_nocase(self.entries[i].0.as_str(), key) {
                proof {
                    lemma_key_index_at(ev, key@, i as int);
                }
                return Some(&self.entries[i].1);
            }
            i += 1;
        }
        proof {
            lemma_key_index_at(ev, key@, ev.len() as int);
        }
        None
    }

    /// Stores a value under a key: the last write to a key wins, whatever
    /// the case of its letters, and every other key keeps its value.
    pub fn insert(&mut self, key: String, value: String)
        requires
            old(self).wf(),
        ensures
            final(self).wf(),
            spec_get(final(self).entries.deep_view(), key@) == Some(value@),
            forall|k: Seq<char>|
                !eq_nocase(k, key@) ==> #[trigger] spec_get(final(self).entries.deep_view(), k)
                    == spec_get(old(self).entries.deep_view(), k),
    {
        let ghost before = self.entries.deep_view();
        let pos = self.position_of(key.as_str());
        if pos < self.entries.len() {
            self.entries.remove(pos);
            proof {
                assert(self.entries.deep_view() =~~= before.remove(pos as int));
                lemma_key_index_props(before, key@);
                lemma_remove_keeps_others(before, key@, pos as int);
            }
        }
        let ghost mid = self.entries.deep_view();
        self.entries.push((key, value));
        proof {
            assert(self.entries.deep_view() =~~= mid.push((key@, value@)));
            if pos == before.len() {
                lemma_key_index_props(before, key@);
            }
            lemma_push_get(mid, key@, value@);
        }
    }

    /// The position of the entry holding this key, or the entry count when
    /// no entry does.
    fn position_of(&self, key: &str) -> (r: usize)
        ensures
            r == key_index(self.entries.deep_view(), key@),
            r <= self.entries.deep_view().len(),
            r < self.entries.deep_view().len() ==> eq_nocase(
                self.entries.deep_view()[r as int].0,
                key@,
            ),
            forall|j: int|
                0 <= j < r ==> !eq_nocase(#[trigger] self.entries.deep_view()[j].0, key@),
    {
        let ghost ev = self.entries.deep_view();
        let mut i: usize = 0;
        while i < self.entries.len()
            invariant
                ev == self.entries.deep_view(),
                0 <= i <= self.entries@.len() == ev.len(),
                forall|j: int| 0 <= j < i ==> !eq_nocase(#[trigger] ev[j].0, key@),
            decreases self.entries@.len() - i,
        {
            proof {
                assert(ev[i as int].0 == self.entries@[i as int].0@);
            }
            if str_eq_nocase(self.entries[i].0.as_str(), key) {
                proof {
                    lemma_key_index_at(ev, key@, i as int);
                }
                return i;
            }
            i += 1;
        }
        proof {
            lemma_key_index_at(ev, key@, ev.len() as int);
        }
        self.entries.len()
    }
}

/// After removing the one entry whose key matches, no entry with that key
/// remains, and every other key resolves as before.
proof fn lemma_remove_keeps_others(entries: Seq<(Seq<char>, Seq<char>)>, k: Seq<char>, at: int)
    requires
        0 <= at < entries.len(),
        eq_nocase(entries[at].0, k),
        forall|i: int, j: int|
            0 <= i < j < entries.len() ==> !eq_nocase(
                #[trigger] entries[i].0,
                #[trigger] entries[j].0,
            ),
    ensures
        forall|q: Seq<char>|
            !eq_nocase(q, k) ==> #[trigger] spec_get(entries.remove(at), q) == spec_get(entries, q),
        forall|j: int| 0 <= j < entries.remove(at).len() ==> !eq_nocase(
            #[trigger] entries.remove(at)[j].0,
            k,
        ),
        forall|i: int, j: int|
            0 <= i < j < entries.remove(at).len() ==> !eq_nocase(
                #[trigger] entries.remove(at)[i].0,
                #[trigger] entries.remove(at)[j].0,
            ),
{
    let r = entries.remove(at);
    assert forall|q: Seq<char>| !eq_nocase(q, k) implies #[trigger] spec_get(r, q) == spec_get(
        entries,
        q,
    ) by {
        lemma_key_index_props(entries, q);
        let ki = key_index(entries, q);
        if ki == entries.len() {
            lemma_key_index_at(r, q, r.len() as int);
        } else {
            assert(!eq_nocase(entries[ki].0, k)) by {
                assert(eq_nocase(entries[ki].0, q));
                lemma_eq_nocase_props(entries[ki].0, q, k);
            }
            assert(ki != at);
            if ki < at {
                lemma_key_index_at(r, q, ki);
            } else {
                lemma_key_index_at(r, q, ki - 1);
            }
        }
    }
}

/// Case-insensitive equality carries across a chain: if `a` matches `q` but
/// `q` does not match `k`, then `a` does not match `k`.
proof fn lemma_eq_nocase_props(a: Seq<char>, q: Seq<char>, k: Seq<char>)
    requires
        eq_nocase(a, q),
        !eq_nocase(q, k),
    ensures
        !eq_nocase(a, k),
{
    if eq_nocase(a, k) {
        assert(eq_nocase(q, k)) by {
            assert(q.len() == k.len());
            assert forall|i: int| 0 <= i < q.len() implies lower_code(#[trigger] q[i])
                == lower_code(k[i]) by {
                assert(lower_code(a[i]) == lower_code(q[i]));
                assert(lower_code(a[i]) == lower_code(k[i]));
            }
        }
    }
}

/// After pushing an entry whose key no earlier entry holds, that key
/// resolves to the pushed value and every other key resolves as before; a
/// well-formed sequence stays well-formed.
proof fn lemma_push_get(entries: Seq<(Seq<char>, Seq<char>)>, k: Seq<char>, v: Seq<char>)
    requires
        forall|j: int| 0 <= j < entries.len() ==> !eq_nocase(#[trigger] entries[j].0, k),
    ensures
        spec_get(entries.push((k, v)), k) == Some(v),
        forall|q: Seq<char>|
            !eq_nocase(q, k) ==> #[trigger] spec_get(entries.push((k, v)), q) == spec_get(
                entries,
                q,
            ),
{
    let p = entries.push((k, v));
    assert(eq_nocase(k, k));
    assert(forall|j: int|
        0 <= j < entries.len() ==> !eq_nocase(#[trigger] p[j].0, k) && p[j] == entries[j]);
    lemma_key_index_at(p, k, entries.len() as int);
    assert forall|q: Seq<char>| !eq_nocase(q, k) implies #[trigger] spec_get(p, q) == spec_get(
        entries,
        q,
    ) by {
        lemma_key_index_props(entries, q);
        let ki = key_index(entries, q);
        if ki == entries.len() {
            assert(!eq_nocase(p[entries.len() as int].0, q)) by {
                lemma_eq_nocase_sym(q, k);
            }
            lemma_key_index_at(p, q, p.len() as int);
        } else {
            lemma_key_index_at(p, q, ki);
        }
    }
}

/// Case-insensitive equality is symmetric, so a key that does not match the
/// pushed key is not matched by it either.
proof fn lemma_eq_nocase_sym(q: Seq<char>, k: Seq<char>)
    requires
        !eq_nocase(q, k),
    ensures
        !eq_nocase(k, q),
{
    if eq_nocase(k, q) {
        assert(eq_nocase(q, k)) by {
            assert(q.len() == k.len());
            assert forall|i: int| 0 <= i < q.len() implies lower_code(#[trigger] q[i])
                == lower_code(k[i]) by {
                assert(lower_code(k[i]) == lower_code(q[i]));
            }
        }
    }
}


/// Case-insensitive equality is symmetric.
proof fn lemma_eq_nocase_symm(a: Seq<char>, b: Seq<char>)
    ensures
        eq_nocase(a, b) == eq_nocase(b, a),
{
    if eq_nocase(a, b) {
        assert forall|i: int| 0 <= i < b.len() implies lower_code(#[trigger] b[i]) == lower_code(
            a[i],
        ) by {
            assert(lower_code(a[i]) == lower_code(b[i]));
        }
    }
    if eq_nocase(b, a) {
        assert forall|i: int| 0 <= i < a.len() implies lower_code(#[trigger] a[i]) == lower_code(
            b[i],
        ) by {
            assert(lower_code(b[i]) == lower_code(a[i]));
        }
    }
}

/// Case-insensitive equality is transitive.
proof fn lemma_eq_nocase_trans(a: Seq<char>, b: Seq<char>, c: Seq<char>)
    requires
        eq_nocase(a, b),
        eq_nocase(b, c),
    ensures
        eq_nocase(a, c),
{
    assert forall|i: int| 0 <= i < a.len() implies lower_code(#[trigger] a[i]) == lower_code(
        c[i],
    ) by {
        assert(lower_code(a[i]) == lower_code(b[i]));
        assert(lower_code(b[i]) == lower_code(c[i]));
    }
}

/// Keys that compare equal case-insensitively resolve to the same entry.
proof fn lemma_get_respects_nocase(
    entries: Seq<(Seq<char>, Seq<char>)>,
    k1: Seq<char>,
    k2: Seq<char>,
)
    requires
        eq_nocase(k1, k2),
    ensures
        key_index(entries, k1) == key_index(entries, k2),
        spec_get(entries, k1) == spec_get(entries, k2),
{
    lemma_key_index_props(entries, k1);
    let p = key_index(entries, k1);
    lemma_eq_nocase_symm(k1, k2);
    assert forall|j: int| 0 <= j < p implies !eq_nocase(#[trigger] entries[j].0, k2) by {
        if eq_nocase(entries[j].0, k2) {
            lemma_eq_nocase_trans(entries[j].0, k2, k1);
        }
    }
    if p < entries.len() {
        lemma_eq_nocase_trans(entries[p].0, k1, k2);
    }
    lemma_key_index_at(entries, k2, p);
}

/// The verbs a request can carry.
#[derive(Debug, Clone, Copy, PartialEq, Eq, Structural)]
pub enum HttpMethod {
    Get,
    Post,
    Put,
    Patch,
    Delete,
}

impl HttpMethod {
    pub open spec fn spec_text(&self) -> Seq<char> {
        match *self {
            HttpMethod::Get => "GET"@,
            HttpMethod::Post => "POST"@,
            HttpMethod::Put => "PUT"@,
            HttpMethod::Patch => "PATCH"@,
            HttpMethod::Delete => "DELETE"@,
        }
    }

    /// The verb as it stands on the wire.
    pub fn as_str(&self) -> (r: &'static str)
        ensures
            r@ == self.spec_text(),
    {
        match self {
            HttpMethod::Get => "GET",
            HttpMethod::Post => "POST",
            HttpMethod::Put => "PUT",
            HttpMethod::Patch => "PATCH",
            HttpMethod::Delete => "DELETE",
        }
    }
}

/// One prepared request, ready for the transport: verb, target, the headers
/// the pipeline assembled, and the body bytes when there are any.
#[derive(Debug)]
pub struct RequestDescriptor {
    pub method: HttpMethod,
    pub url: String,
    pub headers: HeaderMap,
    pub body: Option<Vec<u8>>,
}

/// A success status: the 2xx range.
pub open spec fn spec_status_success(status: u16) -> bool {
    200 <= status < 300
}

pub fn status_is_success(status: u16) -> (r: bool)
    ensures
        r == spec_status_success(status),
{
    200 <= status && status < 300
}

/// Turns a response status into the request's outcome: success passes, any
/// other status is exactly the status error.
pub fn check_status(status: u16) -> (r: Result<(), ApiError>)
    ensures
        spec_status_success(status) ==> r is Ok,
        !spec_status_success(status) ==> (r matches Err(e) && e == (ApiError::HttpStatus { status })),
{
    if 200 <= status && status < 300 {
        Ok(())
    } else {
        Err(ApiError::HttpStatus { status })
    }
}

fn clone_str(s: &String) -> (r: String)
    ensures
        r@ == s@,
{
    s.as_str().to_owned()
}

/// What a prepared request's headers hold: the caller's own headers win;
/// under any other key only the client's user agent and, for requests that
/// carry a body, the JSON content type.
pub open spec fn prepared_header(
    custom: Seq<(Seq<char>, Seq<char>)>,
    user_agent: Seq<char>,
    has_body: bool,
    k: Seq<char>,
) -> Option<Seq<char>> {
    match spec_get(custom, k) {
        Option::Some(v) => Some(v),
        Option::None => {
            if eq_nocase(k, "user-agent"@) {
                Some(user_agent)
            } else if has_body && eq_nocase(k, "content-type"@) {
                Some("application/json"@)
            } else {
                None
            }
        },
    }
}

/// The client: the configuration, the observer pipeline shared by all its
/// requests, and the headers every request carries. The transport that
/// performs an attempt lives outside; it is handed `RequestDescriptor`
/// values prepared here.
pub struct ApiClient {
    pub config: Config,
    pub plugin_manager: PluginManager,
    pub timeout_secs: u64,
    pub custom_headers: HeaderMap,
    pub user_agent: String,
}

impl ApiClient {
    pub fn new(config: Config) -> (r: ApiClient)
        ensures
            r.config == config,
            r.plugin_manager.plugins@.len() == 0,
            r.timeout_secs == config.client.timeout,
            r.custom_headers.spec_len() == 0,
            r.custom_headers.wf(),
            r.user_agent@ == config.client.user_agent@,
    {
        let user_agent = clone_str(&config.client.user_agent);
        let timeout_secs = config.client.timeout;
        ApiClient {
            config,
            plugin_manager: PluginManager::new(),
            timeout_secs,
            custom_headers: HeaderMap::new(),
            user_agent,
        }
    }

    /// Replaces the observer pipeline wholesale.
    pub fn with_plugins(self, plugin_manager: PluginManager) -> (r: ApiClient)
        ensures
            r.plugin_manager == plugin_manager,
            r.config == self.config,
            r.timeout_secs == self.timeout_secs,
            r.custom_headers == self.custom_headers,
            r.user_agent == self.user_agent,
    {
        ApiClient {
            config: self.config,
            plugin_manager,
            timeout_secs: self.timeout_secs,
            custom_headers: self.custom_headers,
            user_agent: self.user_agent,
        }
    }

    pub fn plugin_manager(&self) -> (r: &PluginManager)
        ensures
            r == &self.plugin_manager,
    {
        &self.plugin_manager
    }

    pub fn config(&self) -> (r: &Config)
        ensures
            r == &self.config,
    {
        &self.config
    }

    /// The retry configuration this client's requests run under.
    pub fn retry_policy(&self) -> (r: crate::retry::RetryPolicy)
        requires
            self.config.client.max_retries < u32::MAX,
        ensures
            r.max_retries == self.config.client.max_retries,
            r.retry_delay_ms == self.config.client.retry_delay,
    {
        crate::retry::RetryPolicy {
            max_retries: self.config.client.max_retries as u32,
            retry_delay_ms: self.config.client.retry_delay,
        }
    }

    /// Assembles one request: the verb and target as given, the body as
    /// given, and headers where the caller's own entries override the
    /// client's user agent and, when a body is carried, the JSON content
    /// type.
    pub fn prepare_request(&self, method: HttpMethod, url: &str, body: Option<Vec<u8>>) -> (r:
        RequestDescriptor)
        requires
            self.custom_headers.wf(),
        ensures
            r.method == method,
            r.url@ == url@,
            r.body == body,
            r.headers.wf(),
            forall|k: Seq<char>|
                #[trigger] spec_get(r.headers.entries.deep_view(), k) == prepared_header(
                    self.custom_headers.entries.deep_view(),
                    self.user_agent@,
                    body is Some,
                    k,
                ),
    {
        let ghost custom = self.custom_headers.entries.deep_view();
        let has_body = body.is_some();
        let mut headers = HeaderMap::new();
        headers.insert("user-agent".to_owned(), clone_str(&self.user_agent));
        if has_body {
            headers.insert("content-type".to_owned(), "application/json".to_owned());
        }
        proof {
            assert(!eq_nocase("user-agent"@, "content-type"@)) by {
                reveal_strlit("user-agent");
                reveal_strlit("content-type");
            }
            let h0 = headers.entries.deep_view();
            assert forall|k: Seq<char>|
                #[trigger] spec_get(h0, k) == prepared_base(
                    self.user_agent@,
                    has_body,
                    k,
                ) by {
                if eq_nocase(k, "user-agent"@) {
                    lemma_get_respects_nocase(h0, k, "user-agent"@);
                    if has_body {
                        lemma_eq_nocase_symm(k, "user-agent"@);
                        if eq_nocase(k, "content-type"@) {
                            lemma_eq_nocase_trans("user-agent"@, k, "content-type"@);
                        }
                    }
                } else if has_body && eq_nocase(k, "content-type"@) {
                    lemma_get_respects_nocase(h0, k, "content-type"@);
                }
            }
            assert forall|k: Seq<char>|
                #[trigger] spec_get(h0, k) == (if key_index(custom, k) < 0 {
                    Some(custom[key_index(custom, k)].1)
                } else {
                    prepared_base(self.user_agent@, has_body, k)
                }) by {
                lemma_key_index_props(custom, k);
            }
        }
        let mut i: usize = 0;
        while i < self.custom_headers.entries.len()
            invariant
                custom == self.custom_headers.entries.deep_view(),
                self.custom_headers.wf(),
                0 <= i <= self.custom_headers.entries@.len() == custom.len(),
                headers.wf(),
                forall|k: Seq<char>|
                    #[trigger] spec_get(headers.entries.deep_view(), k) == (
                    if key_index(custom, k) < i {
                        Some(custom[key_index(custom, k)].1)
                    } else {
                        prepared_base(self.user_agent@, has_body, k)
                    }),
            decreases custom.len() - i,
        {
            proof {
                assert(custom[i as int].0 == self.custom_headers.entries@[i as int].0@);
                assert(custom[i as int].1 == self.custom_headers.entries@[i as int].1@);
            }
            let key = clone_str(&self.custom_headers.entries[i].0);
            let value = clone_str(&self.custom_headers.entries[i].1);
            let ghost prev = headers.entries.deep_view();
            headers.insert(key, value);
            proof {
                lemma_merge_step(custom, i as int, prev, headers.entries.deep_view(),
                    self.user_agent@, has_body);
            }
            i += 1;
        }
        proof {
            assert forall|k: Seq<char>|
                #[trigger] spec_get(headers.entries.deep_view(), k) == prepared_header(
                    custom,
                    self.user_agent@,
                    has_body,
                    k,
                ) by {
                lemma_key_index_props(custom, k);
            }
        }
        RequestDescriptor { method, url: url.to_owned(), headers, body }
    }

    /// Assembles a request that carries a JSON body: the value is rendered
    /// to bytes first, and a failure there is reported as a serialization
    /// error without touching the pipeline.
    pub fn prepare_json_request(&self, method: HttpMethod, url: &str, data: &serde_json::Value)
        -> (r: Result<RequestDescriptor, ApiError>)
        requires
            self.custom_headers.wf(),
        ensures
            (r is Ok) == crate::json::json_ok_of(*data),
            match r {
                Result::Ok(d) => {
                    &&& d.method == method
                    &&& d.url@ == url@
                    &&& d.body matches Some(b) && b@ == crate::json::json_bytes_of(*data)
                    &&& d.headers.wf()
                    &&& forall|k: Seq<char>|
                        #[trigger] spec_get(d.headers.entries.deep_view(), k) == prepared_header(
                            self.custom_headers.entries.deep_view(),
                            self.user_agent@,
                            true,
                            k,
                        )
                },
                Result::Err(e) => e is Serialization,
            },
    {
        match crate::json::json_to_bytes(data) {
            Ok(bytes) => Ok(self.prepare_request(method, url, Some(bytes))),
            Err(msg) => Err(ApiError::Serialization(msg)),
        }
    }
}

/// The headers a request starts from, before the caller's own are laid over
/// them.
pub open spec fn prepared_base(user_agent: Seq<char>, has_body: bool, k: Seq<char>) -> Option<
    Seq<char>,
> {
    if eq_nocase(k, "user-agent"@) {
        Some(user_agent)
    } else if has_body && eq_nocase(k, "content-type"@) {
        Some("application/json"@)
    } else {
        None
    }
}

/// One step of laying the caller's headers over the base: after inserting
/// entry `i`, a key resolves among the first `i + 1` entries or falls back
/// as before.
proof fn lemma_merge_step(
    custom: Seq<(Seq<char>, Seq<char>)>,
    i: int,
    prev: Seq<(Seq<char>, Seq<char>)>,
    cur: Seq<(Seq<char>, Seq<char>)>,
    user_agent: Seq<char>,
    has_body: bool,
)
    requires
        0 <= i < custom.len(),
        forall|p: int, q: int|
            0 <= p < q < custom.len() ==> !eq_nocase(#[trigger] custom[p].0, #[trigger] custom[q].0),
        forall|k: Seq<char>|
            #[trigger] spec_get(prev, k) == (if key_index(custom, k) < i {
                Some(custom[key_index(custom, k)].1)
            } else {
                prepared_base(user_agent, has_body, k)
            }),
        spec_get(cur, custom[i].0) == Some(custom[i].1),
        forall|k: Seq<char>|
            !eq_nocase(k, custom[i].0) ==> #[trigger] spec_get(cur, k) == spec_get(prev, k),
    ensures
        forall|k: Seq<char>|
            #[trigger] spec_get(cur, k) == (if key_index(custom, k) < i + 1 {
                Some(custom[key_index(custom, k)].1)
            } else {
                prepared_base(user_agent, has_body, k)
            }),
{
    assert forall|k: Seq<char>|
        #[trigger] spec_get(cur, k) == (if key_index(custom, k) < i + 1 {
            Some(custom[key_index(custom, k)].1)
        } else {
            prepared_base(user_agent, has_body, k)
        }) by {
        lemma_key_index_props(custom, k);
        let ki = key_index(custom, k);
        if eq_nocase(k, custom[i].0) {
            lemma_eq_nocase_symm(k, custom[i].0);
            assert forall|j: int| 0 <= j < i implies !eq_nocase(#[trigger] custom[j].0, k) by {
                if eq_nocase(custom[j].0, k) {
                    lemma_eq_nocase_trans(custom[j].0, k, custom[i].0);
                }
            }
            lemma_key_index_at(custom, k, i);
            lemma_get_respects_nocase(cur, k, custom[i].0);
        } else {
            lemma_eq_nocase_symm(k, custom[i].0);
            assert(ki != i);
        }
    }
}

/// Builds a client step by step: configuration, observer pipeline, headers
/// carried on every request, and the user agent.
pub struct ApiClientBuilder {
    pub config: Option<Config>,
    pub plugin_manager: Option<PluginManager>,
    pub custom_headers: HeaderMap,
    pub user_agent: Option<String>,
}

impl ApiClientBuilder {
    pub fn new() -> (r: ApiClientBuilder)
        ensures
            r.config is None,
            r.plugin_manager is None,
            r.custom_headers.spec_len() == 0,
            r.custom_headers.wf(),
            r.user_agent is None,
    {
        ApiClientBuilder {
            config: None,
            plugin_manager: None,
            custom_headers: HeaderMap::new(),
            user_agent: None,
        }
    }

    pub fn with_config(self, config: Config) -> (r: ApiClientBuilder)
        ensures
            r.config == Some(config),
            r.plugin_manager == self.plugin_manager,
            r.custom_headers == self.custom_headers,
            r.user_agent == self.user_agent,
    {
        ApiClientBuilder { config: Some(config), ..self }
    }

    pub fn with_plugin_manager(self, manager: PluginManager) -> (r: ApiClientBuilder)
        ensures
            r.plugin_manager == Some(manager),
            r.config == self.config,
            r.custom_headers == self.custom_headers,
            r.user_agent == self.user_agent,
    {
        ApiClientBuilder { plugin_manager: Some(manager), ..self }
    }

    /// Adds one header to every request this client will send; a later
    /// entry under the same key, whatever its case, wins.
    pub fn with_header(self, key: String, value: String) -> (r: ApiClientBuilder)
        requires
            self.custom_headers.wf(),
        ensures
            r.config == self.config,
            r.plugin_manager == self.plugin_manager,
            r.user_agent == self.user_agent,
            r.custom_headers.wf(),
            spec_get(r.custom_headers.entries.deep_view(), key@) == Some(value@),
            forall|k: Seq<char>|
                !eq_nocase(k, key@) ==> #[trigger] spec_get(r.custom_headers.entries.deep_view(), k)
                    == spec_get(self.custom_headers.entries.deep_view(), k),
    {
        let mut b = self;
        b.custom_headers.insert(key, value);
        b
    }

    pub fn with_user_agent(self, user_agent: String) -> (r: ApiClientBuilder)
        ensures
            r.user_agent == Some(user_agent),
            r.config == self.config,
            r.plugin_manager == self.plugin_manager,
            r.custom_headers == self.custom_headers,
    {
        ApiClientBuilder { user_agent: Some(user_agent), ..self }
    }

    /// Assembles the client: a missing configuration falls back to the
    /// default, a missing pipeline to the empty one, and a missing user
    /// agent to the configuration's.
    pub fn build(self) -> (r: Result<ApiClient, ApiError>)
        requires
            self.custom_headers.wf(),
        ensures
            r matches Ok(c) && {
                &&& c.custom_headers == self.custom_headers
                &&& match self.config {
                    Option::Some(cf) => c.config == cf,
                    Option::None => c.config.client.timeout == 30 && c.config.client.max_retries
                        == 3 && c.config.wf(),
                }
                &&& c.timeout_secs == c.config.client.timeout
                &&& match self.user_agent {
                    Option::Some(u) => c.user_agent == u,
                    Option::None => c.user_agent@ == c.config.client.user_agent@,
                }
                &&& match self.plugin_manager {
                    Option::Some(m) => c.plugin_manager == m,
                    Option::None => c.plugin_manager.plugins@.len() == 0,
                }
            },
    {
        let config = match self.config {
            Some(cf) => cf,
            None => Config::default(),
        };
        let plugin_manager = match self.plugin_manager {
            Some(m) => m,
            None => PluginManager::new(),
        };
        let user_agent = match self.user_agent {
            Some(u) => u,
            None => clone_str(&config.client.user_agent),
        };
        let timeout_secs = config.client.timeout;
        Ok(ApiClient {
            config,
            plugin_manager,
            timeout_secs,
            custom_headers: self.custom_headers,
            user_agent,
        })
    }
}


/// What handling one transport outcome must conclude: a transport failure
/// passes through untouched; on a response, the post-request dispatch runs
/// first and its failure surfaces even though bytes were transferred; a
/// success status then yields the body, and any other status becomes the
/// status error, shown to the error hooks, whose own failure wins.
pub open spec fn attempt_post(
    plugins: Seq<crate::plugin::PluginEntry>,
    url: Seq<char>,
    outcome: Result<(u16, Vec<u8>), ApiError>,
    r: Result<Vec<u8>, ApiError>,
) -> bool {
    match outcome {
        Result::Err(e) => r == Result::<Vec<u8>, ApiError>::Err(e),
        Result::Ok((status, body)) => {
            let post_ev = crate::plugin::HookEv::PostRequest { url, status };
            if crate::plugin::spec_dispatch(plugins, post_ev) is Some {
                r matches Err(e) && crate::plugin::dispatch_post(plugins, post_ev, Err(e))
            } else if spec_status_success(status) {
                r == Result::<Vec<u8>, ApiError>::Ok(body)
            } else {
                let error_ev = crate::plugin::HookEv::OnError {
                    error: ApiError::HttpStatus { status },
                };
                if crate::plugin::spec_dispatch(plugins, error_ev) is Some {
                    r matches Err(e) && crate::plugin::dispatch_post(plugins, error_ev, Err(e))
                } else {
                    r == Result::<Vec<u8>, ApiError>::Err(ApiError::HttpStatus { status })
                }
            }
        },
    }
}

impl ApiClient {
    /// The decisions after one transport attempt, exactly as `attempt_post`
    /// states them. The pre-request dispatch has already run by the time an
    /// attempt exists, and is never consulted again here.
    pub fn finish_attempt(&self, url: &str, outcome: Result<(u16, Vec<u8>), ApiError>) -> (r:
        Result<Vec<u8>, ApiError>)
        ensures
            attempt_post(self.plugin_manager.plugins@, url@, outcome, r),
    {
        match outcome {
            Err(e) => Err(e),
            Ok((status, body)) => {
                match self.plugin_manager.execute_post_request(url, status) {
                    Ok(()) => {},
                    Err(he) => {
                        return Err(he);
                    },
                }
                if status_is_success(status) {
                    Ok(body)
                } else {
                    let error = ApiError::HttpStatus { status };
                    match self.plugin_manager.execute_error(&error) {
                        Ok(()) => Err(error),
                        Err(he) => Err(he),
                    }
                }
            },
        }
    }
}

} // verus!


