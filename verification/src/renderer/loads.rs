//! Documents that were fetched, failures that are remembered, and fetches under
//! way.

use std::sync::Arc;
use std::time::Duration;
use vstd::prelude::*;
use vstd::utf8::encode_utf8;
use crate::render_cache::weight;
use crate::renderer::profile::ProfileFetchError;
use crate::text::{digit_char, numeral, numeral_text, same_text};
use crate::types::{RendererError, StyleRevision};

verus! {

pub const STYLE_JSON_CACHE_MAX_BYTES: u64 = 64 * 1024 * 1024;

pub const STYLE_JSON_CACHE_IDLE_SECS: u64 = 60 * 60;

pub const TILESET_JSON_CACHE_MAX_BYTES: u64 = 32 * 1024 * 1024;

pub const TILESET_JSON_CACHE_IDLE_SECS: u64 = 30 * 60;

pub const JSON_NEGATIVE_CACHE_MAX_ENTRIES: u64 = 4096;

/// How long a failure is remembered: long enough for a burst of requests, short
/// enough for a style that was just mended.
pub const JSON_NEGATIVE_CACHE_TTL_SECS: u64 = 5;

/// The longest time that the caches can be given: a thousand years.
pub const LONGEST_SECS: u64 = 1000 * 365 * 24 * 3600;

/// What was last put into a cache of documents under each key, and not taken out.
/// The cache may have dropped any of it.
pub uninterp spec fn documents(
    cache: moka::sync::Cache<String, Arc<String>>,
) -> Map<Seq<char>, Seq<char>>;

/// The weight that a cache of documents was made for, and how many seconds it
/// keeps one that nobody asks for.
pub uninterp spec fn document_bounds(
    cache: moka::sync::Cache<String, Arc<String>>,
) -> (u64, u64);

/// What was last put into a cache of failures under each key. The cache may have
/// dropped any of it.
pub uninterp spec fn failures(
    cache: moka::sync::Cache<String, Arc<RendererError>>,
) -> Map<Seq<char>, RendererError>;

/// How many failures a cache was made for, and how many seconds it keeps one.
pub uninterp spec fn failure_bounds(
    cache: moka::sync::Cache<String, Arc<RendererError>>,
) -> (u64, u64);

pub open spec fn no_documents() -> Map<Seq<char>, Seq<char>> {
    Map::empty()
}

pub open spec fn no_failures() -> Map<Seq<char>, RendererError> {
    Map::empty()
}

/// The weight of a document: its bytes, at least one.
pub fn document_weight(document: &Arc<String>) -> (r: u32)
    ensures
        r == weight(encode_utf8(document@).len()),
{
    let len = document.as_str().as_bytes().len();
    if len == 0 {
        1
    } else if len > u32::MAX as usize {
        u32::MAX
    } else {
        len as u32
    }
}

/// `moka::sync::Cache::builder` with a weigher and a time to idle: an empty cache.
/// The builder panics on times of more than a thousand years.
#[verifier::external_body]
fn new_documents(limit: u64, idle_secs: u64) -> (r: moka::sync::Cache<String, Arc<String>>)
    requires
        idle_secs <= LONGEST_SECS,
    ensures
        documents(r) == no_documents(),
        document_bounds(r) == (limit, idle_secs),
{
    moka::sync::Cache::builder()
        .max_capacity(limit)
        .time_to_idle(Duration::from_secs(idle_secs))
        .weigher(|_key: &String, document: &Arc<String>| document_weight(document))
        .build()
}

/// `moka::sync::Cache::builder` with a time to live: an empty cache. The builder
/// panics on times of more than a thousand years.
#[verifier::external_body]
fn new_failures(limit: u64, ttl_secs: u64) -> (r: moka::sync::Cache<String, Arc<RendererError>>)
    requires
        ttl_secs <= LONGEST_SECS,
    ensures
        failures(r) == no_failures(),
        failure_bounds(r) == (limit, ttl_secs),
{
    moka::sync::Cache::builder()
        .max_capacity(limit)
        .time_to_live(Duration::from_secs(ttl_secs))
        .build()
}

/// `moka::sync::Cache::get`: the document last put under the key, unless the cache
/// has dropped it. Nothing is said of when it drops one.
#[verifier::external_body]
fn document(cache: &moka::sync::Cache<String, Arc<String>>, key: &str) -> (r: Option<Arc<String>>)
    ensures
        r matches Some(found) ==> documents(*cache).contains_key(key@) && documents(*cache)[key@]
            == found@,
{
    cache.get(key)
}

/// `moka::sync::Cache::insert`: puts the document under the key.
#[verifier::external_body]
fn put_document(
    cache: &mut moka::sync::Cache<String, Arc<String>>,
    key: String,
    found: Arc<String>,
)
    ensures
        documents(*final(cache)) == documents(*old(cache)).insert(key@, found@),
        document_bounds(*final(cache)) == document_bounds(*old(cache)),
{
    cache.insert(key, found);
}

/// `moka::sync::Cache::invalidate`: takes out what was put under the key.
#[verifier::external_body]
fn drop_document(cache: &mut moka::sync::Cache<String, Arc<String>>, key: &str)
    ensures
        documents(*final(cache)) == documents(*old(cache)).remove(key@),
        document_bounds(*final(cache)) == document_bounds(*old(cache)),
{
    cache.invalidate(key);
}

/// `moka::sync::Cache::get`: the failure last put under the key, unless the cache
/// has dropped it. Nothing is said of when it drops one.
#[verifier::external_body]
fn failure(cache: &moka::sync::Cache<String, Arc<RendererError>>, key: &str) -> (r: Option<
    Arc<RendererError>,
>)
    ensures
        r matches Some(found) ==> failures(*cache).contains_key(key@) && failures(*cache)[key@]
            == *found,
{
    cache.get(key)
}

/// `moka::sync::Cache::insert`: puts the failure under the key.
#[verifier::external_body]
fn put_failure(
    cache: &mut moka::sync::Cache<String, Arc<RendererError>>,
    key: String,
    found: Arc<RendererError>,
)
    ensures
        failures(*final(cache)) == failures(*old(cache)).insert(key@, *found),
        failure_bounds(*final(cache)) == failure_bounds(*old(cache)),
{
    cache.insert(key, found);
}

/// What a request for a document finds.
#[derive(Clone, Debug)]
pub enum JsonLookup {
    /// The document.
    Ready(Arc<String>),
    /// A failure that is still remembered.
    Negative(Arc<RendererError>),
    /// Somebody else fetches it.
    Wait,
    /// The request is to fetch it.
    Load,
}

/// The documents of one kind.
pub struct JsonLoads {
    documents: moka::sync::Cache<String, Arc<String>>,
    failures: moka::sync::Cache<String, Arc<RendererError>>,
    loading: Vec<String>,
    failures_first: bool,
}

/// Whether a text stands in a list.
pub open spec fn listed(list: Seq<String>, key: Seq<char>) -> bool {
    exists|i: int| 0 <= i < list.len() && #[trigger] list[i]@ == key
}

fn index_of(list: &[String], key: &str) -> (r: Option<usize>)
    ensures
        match r {
            Some(i) => i < list@.len() && list@[i as int]@ == key@,
            None => !listed(list@, key@),
        },
{
    let mut i: usize = 0;
    while i < list.len()
        invariant
            i <= list.len(),
            forall|j: int| 0 <= j < i ==> #[trigger] list@[j]@ != key@,
        decreases list.len() - i,
    {
        if same_text(list[i].as_str(), key) {
            return Some(i);
        }
        i += 1;
    }
    None
}

/// What a failure and a document that are still there come to, with failures first
/// or documents first.
pub open spec fn preferred(
    failures_first: bool,
    failed: Option<Arc<RendererError>>,
    known: Option<Arc<String>>,
) -> Option<JsonLookup> {
    match (failed, known) {
        (Some(e), Some(text)) => Some(
            if failures_first {
                JsonLookup::Negative(e)
            } else {
                JsonLookup::Ready(text)
            },
        ),
        (Some(e), None) => Some(JsonLookup::Negative(e)),
        (None, Some(text)) => Some(JsonLookup::Ready(text)),
        (None, None) => None,
    }
}

/// Chooses between a failure and a document that are still there.
pub fn prefer(
    failures_first: bool,
    failed: Option<Arc<RendererError>>,
    known: Option<Arc<String>>,
) -> (r: Option<JsonLookup>)
    ensures
        r == preferred(failures_first, failed, known),
{
    if failures_first {
        match failed {
            Some(e) => Some(JsonLookup::Negative(e)),
            None => match known {
                Some(text) => Some(JsonLookup::Ready(text)),
                None => None,
            },
        }
    } else {
        match known {
            Some(text) => Some(JsonLookup::Ready(text)),
            None => match failed {
                Some(e) => Some(JsonLookup::Negative(e)),
                None => None,
            },
        }
    }
}

impl JsonLoads {
    /// The documents that were put and not taken out.
    pub closed spec fn known(&self) -> Map<Seq<char>, Seq<char>> {
        documents(self.documents)
    }

    /// The failures that were put.
    pub closed spec fn failed(&self) -> Map<Seq<char>, RendererError> {
        failures(self.failures)
    }

    /// The documents that are being fetched.
    pub closed spec fn is_loading(&self, key: Seq<char>) -> bool {
        listed(self.loading@, key)
    }

    /// Whether a remembered failure goes before a known document.
    pub closed spec fn prefers_failures(&self) -> bool {
        self.failures_first
    }

    /// The bounds of the two caches.
    pub closed spec fn bounds(&self) -> ((u64, u64), (u64, u64)) {
        (document_bounds(self.documents), failure_bounds(self.failures))
    }

    /// No document is being fetched twice.
    pub closed spec fn wf(&self) -> bool {
        forall|i: int, j: int|
            0 <= i < self.loading@.len() && 0 <= j < self.loading@.len() && i != j
                ==> #[trigger] self.loading@[i]@ != #[trigger] self.loading@[j]@
    }

    /// Nothing but what is being fetched differs.
    pub open spec fn same_memory(&self, other: &JsonLoads) -> bool {
        &&& self.known() == other.known()
        &&& self.failed() == other.failed()
        &&& self.prefers_failures() == other.prefers_failures()
        &&& self.bounds() == other.bounds()
    }

    /// The style documents: a remembered failure goes before a known document.
    pub fn styles() -> (r: JsonLoads)
        ensures
            r.wf(),
            r.known() == no_documents(),
            r.failed() == no_failures(),
            forall|key: Seq<char>| !r.is_loading(key),
            r.prefers_failures(),
            r.bounds() == (
                (STYLE_JSON_CACHE_MAX_BYTES, STYLE_JSON_CACHE_IDLE_SECS),
                (JSON_NEGATIVE_CACHE_MAX_ENTRIES, JSON_NEGATIVE_CACHE_TTL_SECS),
            ),
    {
        JsonLoads {
            documents: new_documents(STYLE_JSON_CACHE_MAX_BYTES, STYLE_JSON_CACHE_IDLE_SECS),
            failures: new_failures(JSON_NEGATIVE_CACHE_MAX_ENTRIES, JSON_NEGATIVE_CACHE_TTL_SECS),
            loading: Vec::new(),
            failures_first: true,
        }
    }

    /// The TileJSON documents: a known document goes before a remembered failure.
    pub fn tilesets() -> (r: JsonLoads)
        ensures
            r.wf(),
            r.known() == no_documents(),
            r.failed() == no_failures(),
            forall|key: Seq<char>| !r.is_loading(key),
            !r.prefers_failures(),
            r.bounds() == (
                (TILESET_JSON_CACHE_MAX_BYTES, TILESET_JSON_CACHE_IDLE_SECS),
                (JSON_NEGATIVE_CACHE_MAX_ENTRIES, JSON_NEGATIVE_CACHE_TTL_SECS),
            ),
    {
        JsonLoads {
            documents: new_documents(TILESET_JSON_CACHE_MAX_BYTES, TILESET_JSON_CACHE_IDLE_SECS),
            failures: new_failures(JSON_NEGATIVE_CACHE_MAX_ENTRIES, JSON_NEGATIVE_CACHE_TTL_SECS),
            loading: Vec::new(),
            failures_first: false,
        }
    }

    /// Looks a document up. Who finds neither the document nor a failure waits for
    /// the fetch that is under way, or starts one. Nothing is said of which
    /// documents and failures the caches still have.
    pub fn lookup(&mut self, key: &str) -> (r: JsonLookup)
        requires
            old(self).wf(),
        ensures
            final(self).wf(),
            final(self).same_memory(old(self)),
            match r {
                JsonLookup::Ready(text) => old(self).known().contains_key(key@)
                    && old(self).known()[key@] == text@ && *final(self) == *old(self),
                JsonLookup::Negative(e) => old(self).failed().contains_key(key@)
                    && old(self).failed()[key@] == *e && *final(self) == *old(self),
                JsonLookup::Wait => old(self).is_loading(key@) && *final(self) == *old(self),
                JsonLookup::Load => !old(self).is_loading(key@),
            },
            r is Load ==> forall|k: Seq<char>|
                final(self).is_loading(k) == (old(self).is_loading(k) || k == key@),
    {
        let failed = failure(&self.failures, key);
        let known = document(&self.documents, key);
        self.lookup_with(key, failed, known)
    }

    /// Looks a document up of which the caches still have the failure `failed` and the
    /// text `known`. The one that goes first is what is found.
    pub fn lookup_with(
        &mut self,
        key: &str,
        failed: Option<Arc<RendererError>>,
        known: Option<Arc<String>>,
    ) -> (r: JsonLookup)
        requires
            old(self).wf(),
        ensures
            final(self).wf(),
            final(self).same_memory(old(self)),
            r == match preferred(old(self).prefers_failures(), failed, known) {
                Some(found) => found,
                None => if old(self).is_loading(key@) {
                    JsonLookup::Wait
                } else {
                    JsonLookup::Load
                },
            },
            failed is Some || known is Some || old(self).is_loading(key@) ==> *final(self) == *old(
                self,
            ),
            failed is None && known is None ==> forall|k: Seq<char>|
                final(self).is_loading(k) == (old(self).is_loading(k) || k == key@),
    {
        let found = prefer(self.failures_first, failed, known);
        self.lookup_from(key, found)
    }

    /// Looks a document up of which the caches still have `found`.
    pub fn lookup_from(&mut self, key: &str, found: Option<JsonLookup>) -> (r: JsonLookup)
        requires
            old(self).wf(),
        ensures
            final(self).wf(),
            final(self).same_memory(old(self)),
            r == match found {
                Some(found) => found,
                None => if old(self).is_loading(key@) {
                    JsonLookup::Wait
                } else {
                    JsonLookup::Load
                },
            },
            found is Some || old(self).is_loading(key@) ==> *final(self) == *old(self),
            found is None ==> forall|k: Seq<char>|
                final(self).is_loading(k) == (old(self).is_loading(k) || k == key@),
    {
        if let Some(found) = found {
            return found;
        }
        if index_of(&self.loading, key).is_some() {
            return JsonLookup::Wait;
        }
        let ghost before = self.loading@;
        self.loading.push(key.to_owned());
        proof {
            let after = self.loading@;
            assert forall|k: Seq<char>| listed(after, k) == (listed(before, k) || k == key@) by {
                if listed(before, k) {
                    let i = choose|i: int| 0 <= i < before.len() && #[trigger] before[i]@ == k;
                    assert(after[i]@ == k);
                }
                if k == key@ {
                    assert(after[after.len() - 1]@ == k);
                }
                if listed(after, k) {
                    let i = choose|i: int| 0 <= i < after.len() && #[trigger] after[i]@ == k;
                    if i < before.len() {
                        assert(before[i]@ == k);
                    }
                }
            }
        }
        JsonLookup::Load
    }

    /// The fetch of a document is over.
    fn end_load(&mut self, key: &str)
        requires
            old(self).wf(),
        ensures
            final(self).wf(),
            final(self).same_memory(old(self)),
            forall|k: Seq<char>|
                final(self).is_loading(k) == (old(self).is_loading(k) && k != key@),
    {
        let ghost before = self.loading@;
        match index_of(&self.loading, key) {
            Some(i) => {
                self.loading.remove(i);
                proof {
                    let after = self.loading@;
                    assert(after =~= before.remove(i as int));
                    assert forall|k: Seq<char>| listed(after, k) == (listed(before, k) && k
                        != key@) by {
                        if listed(after, k) {
                            let j = choose|j: int|
                                0 <= j < after.len() && #[trigger] after[j]@ == k;
                            let m = if j < i {
                                j
                            } else {
                                j + 1
                            };
                            assert(before[m]@ == k);
                            assert(before[i as int]@ == key@);
                        }
                        if listed(before, k) && k != key@ {
                            let j = choose|j: int|
                                0 <= j < before.len() && #[trigger] before[j]@ == k;
                            let m = if j < i {
                                j
                            } else {
                                j - 1
                            };
                            assert(after[m]@ == k);
                        }
                    }
                    assert forall|x: int, y: int|
                        0 <= x < after.len() && 0 <= y < after.len() && x != y implies
                        #[trigger] after[x]@ != #[trigger] after[y]@ by {
                        let p = if x < i {
                            x
                        } else {
                            x + 1
                        };
                        let q = if y < i {
                            y
                        } else {
                            y + 1
                        };
                        assert(before[p]@ == after[x]@);
                        assert(before[q]@ == after[y]@);
                    }
                }
            },
            None => {
                assert forall|k: Seq<char>| listed(before, k) implies k != key@ by {}
            },
        }
    }

    /// Notes how a fetch went. A document is kept. A failure is remembered only if
    /// it would come again.
    pub fn store(&mut self, key: &str, result: &Result<String, ProfileFetchError>)
        requires
            old(self).wf(),
        ensures
            final(self).wf(),
            final(self).known() == match result {
                Ok(text) => old(self).known().insert(key@, text@),
                Err(_) => old(self).known(),
            },
            final(self).failed() == match result {
                Err(e) if e.negative_cacheable => old(self).failed().insert(key@, e.error),
                _ => old(self).failed(),
            },
            forall|k: Seq<char>|
                final(self).is_loading(k) == (old(self).is_loading(k) && k != key@),
            final(self).prefers_failures() == old(self).prefers_failures(),
            final(self).bounds() == old(self).bounds(),
    {
        match result {
            Ok(text) => {
                put_document(&mut self.documents, key.to_owned(), Arc::new(text.clone()));
            },
            Err(e) => {
                if e.negative_cacheable {
                    put_failure(&mut self.failures, key.to_owned(), Arc::new(copy_error(&e.error)));
                }
            },
        }
        self.end_load(key);
    }

    /// A fetch was given up: the next request starts another.
    pub fn abort(&mut self, key: &str)
        requires
            old(self).wf(),
        ensures
            final(self).wf(),
            final(self).same_memory(old(self)),
            forall|k: Seq<char>|
                final(self).is_loading(k) == (old(self).is_loading(k) && k != key@),
    {
        self.end_load(key);
    }

    /// The renderer refused a document: it is taken out, and the refusal is
    /// remembered.
    pub fn mark_load_failed(&mut self, key: &str, style_id: &str)
        ensures
            final(self).known() == old(self).known().remove(key@),
            final(self).failed().dom() == old(self).failed().dom().insert(key@),
            forall|k: Seq<char>|
                k != key@ && old(self).failed().contains_key(k)
                    ==> #[trigger] final(self).failed()[k] == old(self).failed()[k],
            refused(final(self).failed()[key@], style_id@),
            forall|k: Seq<char>| final(self).is_loading(k) == old(self).is_loading(k),
            final(self).prefers_failures() == old(self).prefers_failures(),
            final(self).bounds() == old(self).bounds(),
            old(self).wf() ==> final(self).wf(),
    {
        drop_document(&mut self.documents, key);
        let error = RendererError::StyleLoadFailed {
            style_id: style_id.to_owned(),
            source: "MapLibre rejected the prepared style".to_owned(),
        };
        put_failure(&mut self.failures, key.to_owned(), Arc::new(error));
    }
}

/// The error says that the renderer refused the style.
pub open spec fn refused(e: RendererError, id: Seq<char>) -> bool {
    match e {
        RendererError::StyleLoadFailed { style_id, source } => style_id@ == id && source@
            == "MapLibre rejected the prepared style"@,
        _ => false,
    }
}

/// A copy of an error.
fn copy_error(e: &RendererError) -> (r: RendererError)
    ensures
        r == *e,
{
    match e {
        RendererError::RenderFailed(text) => RendererError::RenderFailed(text.clone()),
        RendererError::StyleLoadFailed { style_id, source } => RendererError::StyleLoadFailed {
            style_id: style_id.clone(),
            source: source.clone(),
        },
        RendererError::StyleNotReady { style_id, version } => RendererError::StyleNotReady {
            style_id: style_id.clone(),
            version: *version,
        },
        RendererError::ActorDead => RendererError::ActorDead,
        RendererError::Timeout => RendererError::Timeout,
    }
}

/// The key of a revision: its version, a slash and its id.
pub open spec fn revision_key_of(version: nat, id: Seq<char>) -> Seq<char> {
    numeral(version) + "/"@ + id
}

/// The key under which the document of a revision is kept.
pub fn revision_key(revision: &StyleRevision) -> (r: String)
    ensures
        r@ == revision_key_of(revision.version as nat, revision.id@),
{
    let mut key = numeral_text(revision.version as u128);
    key.push_str("/");
    key.push_str(revision.id.as_str());
    key
}

proof fn lemma_numeral_has_no_slash(n: nat)
    ensures
        forall|i: int| 0 <= i < numeral(n).len() ==> #[trigger] numeral(n)[i] != '/',
        numeral(n).len() > 0,
    decreases n,
{
    if n >= 10 {
        lemma_numeral_has_no_slash(n / 10);
    }
}

proof fn lemma_numeral_is_one_to_one(a: nat, b: nat)
    requires
        numeral(a) == numeral(b),
    ensures
        a == b,
    decreases a,
{
    if a < 10 && b < 10 {
        assert(numeral(a)[0] == digit_char(a));
        assert(numeral(b)[0] == digit_char(b));
        assert(digit_char(a) as int == 48 + a);
        assert(digit_char(b) as int == 48 + b);
    } else if a >= 10 && b >= 10 {
        let x = numeral(a / 10);
        let y = numeral(b / 10);
        assert(numeral(a).last() == digit_char(a % 10));
        assert(numeral(b).last() == digit_char(b % 10));
        assert(digit_char(a % 10) as int == 48 + a % 10);
        assert(digit_char(b % 10) as int == 48 + b % 10);
        assert(numeral(a).drop_last() =~= x);
        assert(numeral(b).drop_last() =~= y);
        lemma_numeral_is_one_to_one(a / 10, b / 10);
    } else if a < 10 {
        lemma_numeral_has_no_slash(b / 10);
        assert(numeral(a).len() == 1);
    } else {
        lemma_numeral_has_no_slash(a / 10);
        assert(numeral(b).len() == 1);
    }
}

/// Two revisions have the same key exactly when they are the same.
pub proof fn law_revisions_have_their_own_keys(v: nat, a: Seq<char>, w: nat, b: Seq<char>)
    ensures
        revision_key_of(v, a) == revision_key_of(w, b) <==> v == w && a == b,
{
    reveal_strlit("/");
    let x = revision_key_of(v, a);
    let y = revision_key_of(w, b);
    if x == y {
        lemma_numeral_has_no_slash(v);
        lemma_numeral_has_no_slash(w);
        let p = numeral(v).len() as int;
        let q = numeral(w).len() as int;
        assert(x[p] == '/');
        assert(y[q] == '/');
        if p < q {
            assert(y[p] == numeral(w)[p]);
        }
        if q < p {
            assert(x[q] == numeral(v)[q]);
        }
        assert(x.take(p) =~= numeral(v));
        assert(y.take(q) =~= numeral(w));
        lemma_numeral_is_one_to_one(v, w);
        assert(x.skip(p + 1) =~= a);
        assert(y.skip(q + 1) =~= b);
    }
}

/// How a fetch that somebody waits for went.
#[derive(Clone, Debug)]
pub enum JsonLoadSignal {
    Pending,
    Ready(String),
    Failed(ProfileFetchError),
    Aborted,
}

/// What a waiter does next.
#[derive(Debug)]
pub enum WaitStep {
    KeepWaiting,
    Done(Result<String, ProfileFetchError>),
    /// The fetch was given up: look the document up again.
    LookUpAgain,
}

/// Decides what a waiter does next.
pub fn on_signal(signal: JsonLoadSignal) -> (r: WaitStep)
    ensures
        match signal {
            JsonLoadSignal::Pending => r is KeepWaiting,
            JsonLoadSignal::Ready(text) => r == WaitStep::Done(
                Ok::<String, ProfileFetchError>(text),
            ),
            JsonLoadSignal::Failed(e) => r == WaitStep::Done(Err::<String, ProfileFetchError>(e)),
            JsonLoadSignal::Aborted => r is LookUpAgain,
        },
{
    match signal {
        JsonLoadSignal::Pending => WaitStep::KeepWaiting,
        JsonLoadSignal::Ready(text) => WaitStep::Done(Ok(text)),
        JsonLoadSignal::Failed(e) => WaitStep::Done(Err(e)),
        JsonLoadSignal::Aborted => WaitStep::LookUpAgain,
    }
}

/// What was found is given: a document, or a failure. Where both were found, a store that
/// prefers failures gives the failure, and any other the document.
pub proof fn law_what_was_found_is_given(
    failures_first: bool,
    failed: Option<Arc<RendererError>>,
    known: Option<Arc<String>>,
)
    ensures
        failed is Some && known is None ==> preferred(failures_first, failed, known) == Some(
            JsonLookup::Negative(failed->0),
        ),
        failed is None && known is Some ==> preferred(failures_first, failed, known) == Some(
            JsonLookup::Ready(known->0),
        ),
        failed is Some && known is Some && failures_first ==> preferred(
            failures_first,
            failed,
            known,
        ) == Some(JsonLookup::Negative(failed->0)),
        failed is Some && known is Some && !failures_first ==> preferred(
            failures_first,
            failed,
            known,
        ) == Some(JsonLookup::Ready(known->0)),
        failed is None && known is None ==> preferred(failures_first, failed, known) is None,
{
}

/// Styles are kept up to 64 MiB while they are used within an hour, tilesets up to 32 MiB
/// within half an hour, and 4096 failures for five seconds.
pub proof fn law_documents_are_kept_within_bounds()
    ensures
        STYLE_JSON_CACHE_MAX_BYTES == 67_108_864,
        STYLE_JSON_CACHE_IDLE_SECS == 3_600,
        TILESET_JSON_CACHE_MAX_BYTES == 33_554_432,
        TILESET_JSON_CACHE_IDLE_SECS == 1_800,
        JSON_NEGATIVE_CACHE_MAX_ENTRIES == 4_096,
        JSON_NEGATIVE_CACHE_TTL_SECS == 5,
{
}

/// A key is listed once it was put on the list, and no other key is with it.
pub proof fn law_keys_are_listed(list: Seq<String>, added: String, key: Seq<char>)
    ensures
        listed(list.push(added), key) <==> listed(list, key) || added@ == key,
        !listed(Seq::empty(), key),
{
    let all = list.push(added);
    if listed(list, key) {
        let i = choose|i: int| 0 <= i < list.len() && #[trigger] list[i]@ == key;
        assert(all[i]@ == key);
    }
    if added@ == key {
        assert(all[list.len() as int]@ == key);
    }
    if listed(all, key) {
        let i = choose|i: int| 0 <= i < all.len() && #[trigger] all[i]@ == key;
        if i < list.len() {
            assert(list[i]@ == key);
        }
    }
}

/// The key of a revision is its version, a slash and its id.
pub proof fn law_revision_keys_hold_version_and_id(version: nat, id: Seq<char>)
    ensures
        revision_key_of(version, id) == numeral(version).push('/') + id,
{
    reveal_strlit("/");
    assert(numeral(version) + "/"@ =~= numeral(version).push('/'));
}

/// A style that was refused is named in the failure.
pub proof fn law_refused_styles_are_named(e: RendererError, id: Seq<char>)
    requires
        refused(e, id),
    ensures
        e matches RendererError::StyleLoadFailed { style_id, .. } && style_id@ == id,
{
}

/// Stores with the same memory hold the same documents and failures, within the same
/// bounds.
pub proof fn law_memories_are_compared_whole(a: JsonLoads, b: JsonLoads)
    requires
        a.same_memory(&b),
    ensures
        a.known() == b.known(),
        a.failed() == b.failed(),
        a.prefers_failures() == b.prefers_failures(),
        a.bounds() == b.bounds(),
{
}

} // verus!
