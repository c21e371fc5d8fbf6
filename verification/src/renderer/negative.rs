//! Resources that are known to be missing.

use std::sync::Arc;
use std::time::Duration;
use vstd::prelude::*;
use crate::cache_key::{backwards, lemma_text, lemma_word, put, put_text, text_words, word};
use crate::renderer::file_source::{
    kind_text, law_kinds_have_their_own_names, negative_step, reads_caches, tile_view, FetchReply, RequestStep, ResourceRequest,
    ResourceRequestKey, TileView,
};
use crate::renderer::loads::LONGEST_SECS;

verus! {

/// How many missing resources are remembered.
pub const NEGATIVE_CACHE_CAPACITY: u64 = 4_096;

/// For how long one is remembered at most, in seconds.
pub const NEGATIVE_CACHE_TTL_SECS: u64 = 15;

/// What identifies a resource.
pub struct ResourceView {
    pub url: Seq<char>,
    pub kind: Seq<char>,
    pub range: Option<(u64, u64)>,
    pub tile: Option<TileView>,
}

/// The resource that is asked for.
pub open spec fn resource_of(request: ResourceRequest) -> ResourceView {
    ResourceView {
        url: request.url@,
        kind: kind_text(request.kind),
        range: request.data_range,
        tile: match request.tile {
            Some(tile) => Some(tile_view(tile)),
            None => None,
        },
    }
}

pub open spec fn range_words(range: Option<(u64, u64)>, rest: Seq<int>) -> Seq<int> {
    match range {
        Some((first, last)) => word(1, word(first as int, word(last as int, rest))),
        None => word(0, rest),
    }
}

pub open spec fn tile_words(tile: Option<TileView>, rest: Seq<int>) -> Seq<int> {
    match tile {
        Some(tile) => word(
            1,
            text_words(
                tile.url_template,
                word(
                    tile.pixel_ratio as int,
                    word(tile.x as int, word(tile.y as int, word(tile.z as int, rest))),
                ),
            ),
        ),
        None => word(0, rest),
    }
}

/// A resource as a row of words.
pub open spec fn resource_words(resource: ResourceView) -> Seq<int> {
    text_words(
        resource.url,
        text_words(
            resource.kind,
            range_words(resource.range, tile_words(resource.tile, Seq::empty())),
        ),
    )
}

/// The words of a resource, last first.
pub open spec fn key_of(resource: ResourceView) -> Seq<i128> {
    let words = resource_words(resource);
    Seq::new(words.len(), |i: int| words[words.len() - 1 - i] as i128)
}

proof fn lemma_range(a: Option<(u64, u64)>, b: Option<(u64, u64)>, r: Seq<int>, s: Seq<int>)
    requires
        range_words(a, r) == range_words(b, s),
    ensures
        a == b,
        r == s,
{
    match (a, b) {
        (Some((x, y)), Some((u, v))) => {
            lemma_word(
                1,
                1,
                word(x as int, word(y as int, r)),
                word(u as int, word(v as int, s)),
            );
            lemma_word(x as int, u as int, word(y as int, r), word(v as int, s));
            lemma_word(y as int, v as int, r, s);
        },
        (Some((x, y)), None) => lemma_word(1, 0, word(x as int, word(y as int, r)), s),
        (None, Some((u, v))) => lemma_word(0, 1, r, word(u as int, word(v as int, s))),
        (None, None) => lemma_word(0, 0, r, s),
    }
}

proof fn lemma_tile(a: Option<TileView>, b: Option<TileView>, r: Seq<int>, s: Seq<int>)
    requires
        tile_words(a, r) == tile_words(b, s),
    ensures
        a == b,
{
    let first = tile_words(a, r);
    let second = tile_words(b, s);
    lemma_word(first[0], second[0], first.skip(1), second.skip(1));
    match (a, b) {
        (Some(x), Some(y)) => {
            let xz = word(x.z as int, r);
            let yz = word(y.z as int, s);
            let xy = word(x.y as int, xz);
            let yy = word(y.y as int, yz);
            let xx = word(x.x as int, xy);
            let yx = word(y.x as int, yy);
            let xp = word(x.pixel_ratio as int, xx);
            let yp = word(y.pixel_ratio as int, yx);
            lemma_word(1, 1, text_words(x.url_template, xp), text_words(y.url_template, yp));
            lemma_text(x.url_template, y.url_template, xp, yp);
            lemma_word(x.pixel_ratio as int, y.pixel_ratio as int, xx, yx);
            lemma_word(x.x as int, y.x as int, xy, yy);
            lemma_word(x.y as int, y.y as int, xz, yz);
            lemma_word(x.z as int, y.z as int, r, s);
        },
        (Some(x), None) => {
            assert(first[0] == 1);
            assert(second[0] == 0);
        },
        (None, Some(y)) => {
            assert(first[0] == 0);
            assert(second[0] == 1);
        },
        (None, None) => {},
    }
}

/// Different resources have different keys.
pub proof fn law_resources_have_their_own_keys(a: ResourceView, b: ResourceView)
    requires
        resource_words(a) == resource_words(b),
    ensures
        a == b,
{
    let ar = range_words(a.range, tile_words(a.tile, Seq::empty()));
    let br = range_words(b.range, tile_words(b.tile, Seq::empty()));
    lemma_text(a.url, b.url, text_words(a.kind, ar), text_words(b.kind, br));
    lemma_text(a.kind, b.kind, ar, br);
    lemma_range(
        a.range,
        b.range,
        tile_words(a.tile, Seq::empty()),
        tile_words(b.tile, Seq::empty()),
    );
    lemma_tile(a.tile, b.tile, Seq::empty(), Seq::empty());
}

fn resource_key(request: &ResourceRequest) -> (r: Vec<i128>)
    ensures
        backwards(r@) == resource_words(resource_of(*request)),
        r@ == key_of(resource_of(*request)),
{
    let key = ResourceRequestKey::from_request(request);
    let mut words: Vec<i128> = Vec::new();
    assert(backwards(words@) =~= Seq::empty());
    match &key.tile {
        Some(tile) => {
            put(&mut words, tile.z as i128);
            put(&mut words, tile.y as i128);
            put(&mut words, tile.x as i128);
            put(&mut words, tile.pixel_ratio as i128);
            put_text(&mut words, tile.url_template.as_str());
            put(&mut words, 1);
        },
        None => put(&mut words, 0),
    }
    match key.range {
        Some((first, last)) => {
            put(&mut words, last as i128);
            put(&mut words, first as i128);
            put(&mut words, 1);
        },
        None => put(&mut words, 0),
    }
    put_text(&mut words, key.kind);
    put_text(&mut words, key.url.as_str());
    proof {
        let row = resource_words(resource_of(*request));
        assert(backwards(words@) == row);
        assert forall|i: int| 0 <= i < words@.len() implies words@[i] == key_of(
            resource_of(*request),
        )[i] by {
            assert(backwards(words@)[words@.len() - 1 - i] == words@[i]);
        }
        assert(words@ =~= key_of(resource_of(*request)));
    }
    words
}

/// What is remembered of a missing resource.
#[derive(Debug)]
pub struct NegativeEntry {
    pub reply: FetchReply,
    pub expires_at: u64,
}

/// `moka::sync::Cache`: the entry last put under each key and not taken out since.
pub uninterp spec fn negative_entries(
    cache: moka::sync::Cache<Vec<i128>, Arc<NegativeEntry>>,
) -> Map<Seq<i128>, NegativeEntry>;

/// `moka::sync::Cache`: how many entries it may hold, and for how many seconds.
pub uninterp spec fn negative_bounds(
    cache: moka::sync::Cache<Vec<i128>, Arc<NegativeEntry>>,
) -> (u64, u64);

pub open spec fn no_entries() -> Map<Seq<i128>, NegativeEntry> {
    Map::empty()
}

/// `moka::sync::Cache::builder` with a time to live: an empty cache. The builder
/// panics on times of more than a thousand years.
#[verifier::external_body]
fn new_entries(limit: u64, ttl_secs: u64) -> (r: moka::sync::Cache<Vec<i128>, Arc<NegativeEntry>>)
    requires
        ttl_secs <= LONGEST_SECS,
    ensures
        negative_entries(r) == no_entries(),
        negative_bounds(r) == (limit, ttl_secs),
{
    moka::sync::Cache::builder()
        .max_capacity(limit)
        .time_to_live(Duration::from_secs(ttl_secs))
        .build()
}

/// `moka::sync::Cache::get`: the entry last put under the key, unless the cache has
/// dropped it. Nothing is said of when it drops one.
#[verifier::external_body]
fn entry(
    cache: &moka::sync::Cache<Vec<i128>, Arc<NegativeEntry>>,
    key: &Vec<i128>,
) -> (r: Option<Arc<NegativeEntry>>)
    ensures
        r matches Some(found) ==> negative_entries(*cache).contains_key(key@) && negative_entries(
            *cache,
        )[key@] == *found,
{
    cache.get(key)
}

/// `moka::sync::Cache::insert`: puts the entry under the key.
#[verifier::external_body]
fn put_entry(
    cache: &mut moka::sync::Cache<Vec<i128>, Arc<NegativeEntry>>,
    key: Vec<i128>,
    found: Arc<NegativeEntry>,
)
    ensures
        negative_entries(*final(cache)) == negative_entries(*old(cache)).insert(key@, *found),
        negative_bounds(*final(cache)) == negative_bounds(*old(cache)),
{
    cache.insert(key, found);
}

/// `moka::sync::Cache::invalidate`: takes out what was put under the key.
#[verifier::external_body]
fn drop_entry(cache: &mut moka::sync::Cache<Vec<i128>, Arc<NegativeEntry>>, key: &Vec<i128>)
    ensures
        negative_entries(*final(cache)) == negative_entries(*old(cache)).remove(key@),
        negative_bounds(*final(cache)) == negative_bounds(*old(cache)),
{
    cache.invalidate(key);
}

/// The resources that are known to be missing.
pub struct NegativeCache {
    inner: moka::sync::Cache<Vec<i128>, Arc<NegativeEntry>>,
}

/// What was remembered under the key had expired, and is forgotten.
pub open spec fn forgets(
    before: Map<Seq<i128>, NegativeEntry>,
    after: Map<Seq<i128>, NegativeEntry>,
    key: Seq<i128>,
    now: u64,
) -> bool {
    before.contains_key(key) && before[key].expires_at <= now && after == before.remove(key)
}

/// An entry was found for a request that may be answered from memory.
pub open spec fn is_found(request: ResourceRequest, found: Option<Arc<NegativeEntry>>) -> bool {
    reads_caches(request) && found is Some
}

impl NegativeCache {
    /// What was remembered and not forgotten since, by the keys of the resources.
    pub closed spec fn remembered(&self) -> Map<Seq<i128>, NegativeEntry> {
        negative_entries(self.inner)
    }

    /// How many resources are remembered, and for how many seconds.
    pub closed spec fn bounds(&self) -> (u64, u64) {
        negative_bounds(self.inner)
    }

    pub fn new() -> (r: NegativeCache)
        ensures
            r.remembered() == no_entries(),
            r.bounds() == (NEGATIVE_CACHE_CAPACITY, NEGATIVE_CACHE_TTL_SECS),
    {
        NegativeCache { inner: new_entries(NEGATIVE_CACHE_CAPACITY, NEGATIVE_CACHE_TTL_SECS) }
    }

    /// Remembers that a resource is missing, with the reply that said so.
    pub fn remember(&mut self, request: &ResourceRequest, reply: FetchReply, expires_at: u64)
        ensures
            final(self).remembered() == old(self).remembered().insert(
                key_of(resource_of(*request)),
                NegativeEntry { reply, expires_at },
            ),
            final(self).bounds() == old(self).bounds(),
    {
        let key = resource_key(request);
        put_entry(&mut self.inner, key, Arc::new(NegativeEntry { reply, expires_at }));
    }

    /// The reply to a request for a resource that is known to be missing. What has
    /// expired is forgotten. Nothing is said of which entries the cache still has.
    pub fn answer(&mut self, request: &ResourceRequest, now: u64) -> (r: Option<Arc<NegativeEntry>>)
        ensures
            r matches Some(found) ==> reads_caches(*request) && old(self).remembered().contains_key(
                key_of(resource_of(*request)),
            ) && old(self).remembered()[key_of(resource_of(*request))] == *found
                && found.expires_at > now && *final(self) == *old(self),
            !reads_caches(*request) ==> *final(self) == *old(self),
            r is None ==> *final(self) == *old(self) || forgets(
                old(self).remembered(),
                final(self).remembered(),
                key_of(resource_of(*request)),
                now,
            ),
            final(self).bounds() == old(self).bounds(),
    {
        let key = resource_key(request);
        let found = entry(&self.inner, &key);
        self.answer_from(request, found, now)
    }

    /// The reply to a request for which the cache has the entry `found`, or none. An
    /// entry that has expired is no reply, and is forgotten.
    pub fn answer_from(
        &mut self,
        request: &ResourceRequest,
        found: Option<Arc<NegativeEntry>>,
        now: u64,
    ) -> (r: Option<Arc<NegativeEntry>>)
        ensures
            r == if is_found(*request, found) && found->0.expires_at > now {
                found
            } else {
                None
            },
            is_found(*request, found) && found->0.expires_at <= now ==> final(self).remembered()
                == old(self).remembered().remove(key_of(resource_of(*request))),
            !(is_found(*request, found) && found->0.expires_at <= now) ==> *final(self) == *old(
                self,
            ),
            final(self).bounds() == old(self).bounds(),
    {
        let expires: Option<u64> = match &found {
            Some(found) => Some(found.expires_at),
            None => None,
        };
        match negative_step(request, expires, now) {
            RequestStep::AnswerNegative => found,
            RequestStep::ForgetNegativeAndFetch => {
                let key = resource_key(request);
                drop_entry(&mut self.inner, &key);
                None
            },
            RequestStep::Fetch => None,
        }
    }
}

/// Requests share a key just if they ask for the same thing: one address, one kind, one
/// range and one tile. How urgent they are, and how often they may ask, does not matter.
pub proof fn law_one_key_is_one_resource(a: ResourceRequest, b: ResourceRequest)
    ensures
        resource_words(resource_of(a)) == resource_words(resource_of(b)) ==> {
            &&& a.url@ == b.url@
            &&& a.kind == b.kind
            &&& a.data_range == b.data_range
            &&& a.tile is Some <==> b.tile is Some
            &&& a.tile is Some ==> {
                &&& a.tile->0.url_template@ == b.tile->0.url_template@
                &&& a.tile->0.pixel_ratio == b.tile->0.pixel_ratio
                &&& a.tile->0.x == b.tile->0.x
                &&& a.tile->0.y == b.tile->0.y
                &&& a.tile->0.z == b.tile->0.z
            }
        },
        a.url@ == b.url@ && a.kind == b.kind && a.data_range == b.data_range && a.tile == b.tile
            ==> key_of(resource_of(a)) == key_of(resource_of(b)),
{
    law_kinds_have_their_own_names(a.kind, b.kind);
    if resource_words(resource_of(a)) == resource_words(resource_of(b)) {
        law_resources_have_their_own_keys(resource_of(a), resource_of(b));
    }
}

/// Only what has expired is forgotten, and nothing else with it.
pub proof fn law_only_the_expired_is_forgotten(
    before: Map<Seq<i128>, NegativeEntry>,
    after: Map<Seq<i128>, NegativeEntry>,
    key: Seq<i128>,
    other: Seq<i128>,
    now: u64,
)
    requires
        forgets(before, after, key, now),
    ensures
        before.contains_key(key),
        before[key].expires_at <= now,
        !after.contains_key(key),
        other != key ==> after.contains_key(other) == before.contains_key(other),
        other != key && before.contains_key(other) ==> after[other] == before[other],
{
}

/// Entries are kept for fifteen seconds, and 4096 of them.
pub proof fn law_entries_are_kept_within_bounds(request: ResourceRequest)
    ensures
        NEGATIVE_CACHE_CAPACITY == 4_096,
        NEGATIVE_CACHE_TTL_SECS == 15,
        is_found(request, None) == false,
{
}

} // verus!
