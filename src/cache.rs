use vstd::prelude::*;

use crate::fingerprint::{fingerprint_of, search_fingerprint};
use crate::text::{concat, concat3, push_char};

verus! {

#[verifier::external_type_specification]
#[verifier::external_body]
pub struct ExRedisClient(redis::Client);

/// Whether `redis::Client::open` accepts `url` as a connection URL.
pub uninterp spec fn redis_url_accepted(url: Seq<char>) -> bool;

/// Relies on `redis::Client::open`, which only parses the connection URL (it opens
/// no connection) and fails where the URL is not one it accepts.
#[verifier::external_body]
fn open_client(url: &str) -> (r: Option<redis::Client>)
    ensures
        r is Some == redis_url_accepted(url@),
{
    redis::Client::open(url).ok()
}

/// Handle on the key-value store. Without a usable URL the cache is disabled: every
/// read is a miss and every write is dropped, so callers compute from source.
pub struct RedisCache {
    client: Option<redis::Client>,
}

impl RedisCache {
    /// Whether a store is configured.
    pub closed spec fn enabled(&self) -> bool {
        self.client is Some
    }

    /// A handle on the store at `url`; disabled where `url` is absent or not accepted.
    pub fn new(url: Option<&str>) -> (r: RedisCache)
        ensures
            r.enabled() == (url matches Some(u) && redis_url_accepted(u@)),
    {
        match url {
            Some(u) => RedisCache { client: open_client(u) },
            None => RedisCache { client: None },
        }
    }

    /// Whether a store is configured.
    pub fn is_enabled(&self) -> (r: bool)
        ensures
            r == self.enabled(),
    {
        self.client.is_some()
    }

    /// The store's client, where one is configured.
    pub fn client(&self) -> (r: Option<&redis::Client>)
        ensures
            r is Some == self.enabled(),
    {
        match &self.client {
            Some(c) => Some(c),
            None => None,
        }
    }
}

/// Expiry of cached search results, in seconds.
pub const SEARCH_TTL_SECS: u64 = 3600;

/// Key of a cached guideline.
pub open spec fn guideline_key_of(prefix: Seq<char>, id: Seq<char>) -> Seq<char> {
    prefix + "guideline:"@ + id
}

/// Key of a cached search.
pub open spec fn search_key_of(prefix: Seq<char>, query: Seq<char>, limit: nat) -> Seq<char> {
    prefix + "search:"@ + fingerprint_of(query, limit)
}

/// Key of the cached category list.
pub open spec fn categories_key_of(prefix: Seq<char>) -> Seq<char> {
    prefix + "categories"@
}

/// Key of the cached member ids of a category.
pub open spec fn category_key_of(prefix: Seq<char>, key: Seq<char>) -> Seq<char> {
    prefix + "category:"@ + key
}

/// Key of the revision marker of the last indexed generation.
pub open spec fn repo_commit_key_of(prefix: Seq<char>) -> Seq<char> {
    prefix + "repo_commit"@
}

/// The cache of one corpus: every key it uses starts with its namespace prefix,
/// so that all of them can be removed at once.
pub struct GuidelineCache {
    redis: RedisCache,
    prefix: String,
}

impl GuidelineCache {
    /// The namespace prefix.
    pub closed spec fn namespace(&self) -> Seq<char> {
        self.prefix@
    }

    /// Whether the underlying store is configured.
    pub closed spec fn enabled(&self) -> bool {
        self.redis.enabled()
    }

    /// The cache of the corpus whose keys start with `prefix`.
    pub fn new(redis: RedisCache, prefix: &str) -> (r: GuidelineCache)
        ensures
            r.namespace() == prefix@,
            r.enabled() == redis.enabled(),
    {
        GuidelineCache { redis, prefix: prefix.to_owned() }
    }

    /// The underlying store.
    pub fn redis(&self) -> (r: &RedisCache)
        ensures
            r.enabled() == self.enabled(),
    {
        &self.redis
    }

    /// The namespace prefix.
    pub fn prefix(&self) -> (r: &String)
        ensures
            r@ == self.namespace(),
    {
        &self.prefix
    }

    /// Key of the cached guideline `id`.
    pub fn guideline_key(&self, id: &str) -> (r: String)
        ensures
            r@ == guideline_key_of(self.namespace(), id@),
    {
        concat3(self.prefix.as_str(), "guideline:", id)
    }

    /// Key of the cached results of a search for `query` with `limit`.
    pub fn search_key(&self, query: &str, limit: usize) -> (r: String)
        ensures
            r@ == search_key_of(self.namespace(), query@, limit as nat),
    {
        let f = search_fingerprint(query, limit);
        concat3(self.prefix.as_str(), "search:", f.as_str())
    }

    /// Key of the cached category list.
    pub fn categories_key(&self) -> (r: String)
        ensures
            r@ == categories_key_of(self.namespace()),
    {
        concat(self.prefix.as_str(), "categories")
    }

    /// Key of the cached member ids of the category `key`.
    pub fn category_key(&self, key: &str) -> (r: String)
        ensures
            r@ == category_key_of(self.namespace(), key@),
    {
        concat3(self.prefix.as_str(), "category:", key)
    }

    /// Key of the revision marker.
    pub fn repo_commit_key(&self) -> (r: String)
        ensures
            r@ == repo_commit_key_of(self.namespace()),
    {
        concat(self.prefix.as_str(), "repo_commit")
    }
}

/// Distinct guideline ids have distinct cache keys, so a guideline written under
/// its id is the one read back under that id.
pub proof fn lemma_guideline_keys_distinct(prefix: Seq<char>, a: Seq<char>, b: Seq<char>)
    ensures
        (guideline_key_of(prefix, a) == guideline_key_of(prefix, b)) == (a == b),
{
    let head = prefix + "guideline:"@;
    if guideline_key_of(prefix, a) == guideline_key_of(prefix, b) {
        assert(a =~= guideline_key_of(prefix, a).subrange(head.len() as int, guideline_key_of(prefix, a).len() as int));
        assert(b =~= guideline_key_of(prefix, b).subrange(head.len() as int, guideline_key_of(prefix, b).len() as int));
    }
}

/// Characters that Redis's glob patterns give a meaning: `*`, `?`, `[`, `]` and `\`.
pub open spec fn is_glob_special(c: char) -> bool {
    c == '*' || c == '?' || c == '[' || c == ']' || c == '\\'
}

/// `s` with each glob-special character preceded by `\`, so that the pattern
/// matches `s` literally.
pub open spec fn glob_escaped(s: Seq<char>) -> Seq<char>
    decreases s.len(),
{
    if s.len() == 0 {
        Seq::empty()
    } else {
        let head = glob_escaped(s.drop_last());
        if is_glob_special(s.last()) {
            head.push('\\').push(s.last())
        } else {
            head.push(s.last())
        }
    }
}

/// The SCAN pattern that matches exactly the keys starting with `prefix`.
pub fn scan_pattern(prefix: &str) -> (r: String)
    ensures
        r@ == glob_escaped(prefix@) + "*"@,
{
    let n = prefix.unicode_len();
    let mut out = String::new();
    let mut i: usize = 0;
    while i < n
        invariant
            n == prefix@.len(),
            i <= n,
            out@ == glob_escaped(prefix@.subrange(0, i as int)),
        decreases n - i,
    {
        assert(prefix@.subrange(0, i + 1).drop_last() =~= prefix@.subrange(0, i as int));
        let c = prefix.get_char(i);
        if c == '*' || c == '?' || c == '[' || c == ']' || c == '\\' {
            push_char(&mut out, '\\');
        }
        push_char(&mut out, c);
        i += 1;
    }
    assert(prefix@.subrange(0, n as int) =~= prefix@);
    concat(out.as_str(), "*")
}

/// The next action of a prefix deletion, which walks the store's keys page by
/// page with SCAN and deletes each page it gets.
#[derive(Debug, Clone)]
pub enum ScanStep {
    /// Delete these keys, then go on from cursor `next`.
    Delete { keys: Vec<String>, next: u64 },
    /// Ask SCAN for the page at `cursor`.
    Scan { cursor: u64 },
    /// Stop; `ok` tells whether every key under the prefix was deleted.
    Done { ok: bool },
}

/// First action of a prefix deletion: the page at cursor 0.
pub fn first_scan() -> (r: ScanStep)
    ensures
        r matches ScanStep::Scan { cursor } && cursor == 0,
{
    ScanStep::Scan { cursor: 0 }
}

/// What follows a SCAN reply (next cursor, page of keys); `None` where SCAN failed.
pub fn after_scan(reply: Option<(u64, Vec<String>)>) -> (r: ScanStep)
    ensures
        reply is None ==> (r matches ScanStep::Done { ok } && !ok),
        reply matches Some((next, keys)) ==> {
            &&& keys@.len() > 0 ==> (r matches ScanStep::Delete { keys: k, next: n } && k@ == keys@ && n == next)
            &&& keys@.len() == 0 && next == 0 ==> (r matches ScanStep::Done { ok } && ok)
            &&& keys@.len() == 0 && next != 0 ==> (r matches ScanStep::Scan { cursor } && cursor == next)
        },
{
    match reply {
        None => ScanStep::Done { ok: false },
        Some((next, keys)) => {
            if keys.len() > 0 {
                ScanStep::Delete { keys, next }
            } else if next == 0 {
                ScanStep::Done { ok: true }
            } else {
                ScanStep::Scan { cursor: next }
            }
        },
    }
}

/// What follows deleting a page, given whether the deletion succeeded and the
/// cursor that SCAN returned with the page.
pub fn after_delete(deleted: bool, next: u64) -> (r: ScanStep)
    ensures
        !deleted ==> (r matches ScanStep::Done { ok } && !ok),
        deleted && next == 0 ==> (r matches ScanStep::Done { ok } && ok),
        deleted && next != 0 ==> (r matches ScanStep::Scan { cursor } && cursor == next),
{
    if !deleted {
        ScanStep::Done { ok: false }
    } else if next == 0 {
        ScanStep::Done { ok: true }
    } else {
        ScanStep::Scan { cursor: next }
    }
}

} // verus!
