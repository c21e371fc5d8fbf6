//! Rendered images that a node keeps for the next request.

use std::sync::Arc;
use vstd::prelude::*;
use crate::cache_key::{task_key, words_of, RenderCacheKey};
use crate::types::{
    CachePolicy, CompletedInfo, ImageFormat, InternalTask, RenderOutput, RouteTier, SourceRef,
    TaskOutcome, TaskResult,
};

verus! {

/// The type `moka::sync::Cache`.
#[verifier::external_type_specification]
#[verifier::external_body]
#[verifier::reject_recursive_types(K)]
#[verifier::reject_recursive_types(V)]
#[verifier::reject_recursive_types(S)]
pub struct ExCache<K, V, S>(moka::sync::Cache<K, V, S>);

/// An image as plain values.
pub struct Image {
    pub bytes: Seq<u8>,
    pub format: ImageFormat,
}

pub open spec fn image(output: RenderOutput) -> Image {
    Image { bytes: output.bytes@, format: output.format }
}

pub open spec fn no_images() -> Map<Seq<i128>, Image> {
    Map::empty()
}

/// What was last put into a cache under each key. The cache may have dropped some
/// of it.
pub uninterp spec fn cache_puts(
    cache: moka::sync::Cache<Vec<i128>, Arc<RenderOutput>>,
) -> Map<Seq<i128>, Image>;

/// The weight up to which a cache was made to hold images.
pub uninterp spec fn cache_limit(
    cache: moka::sync::Cache<Vec<i128>, Arc<RenderOutput>>,
) -> u64;

/// The weight of all images that were ever put into a cache, together.
pub uninterp spec fn cache_weight(
    cache: moka::sync::Cache<Vec<i128>, Arc<RenderOutput>>,
) -> nat;

/// What an image weighs: its bytes, at least one.
pub open spec fn weight(len: nat) -> nat {
    if len == 0 {
        1
    } else if len > u32::MAX {
        u32::MAX as nat
    } else {
        len
    }
}

/// The weight of an image in the cache.
pub fn image_weight(output: &Arc<RenderOutput>) -> (r: u32)
    ensures
        r == weight(output.bytes@.len()),
{
    let len = output.bytes.len();
    if len == 0 {
        1
    } else if len > u32::MAX as usize {
        u32::MAX
    } else {
        len as u32
    }
}

/// `moka::sync::Cache::builder`: an empty cache that drops images when they weigh
/// more than the limit together, and that drops none for its age.
#[verifier::external_body]
fn new_cache(limit: u64) -> (r: moka::sync::Cache<Vec<i128>, Arc<RenderOutput>>)
    ensures
        cache_puts(r) == no_images(),
        cache_limit(r) == limit,
        cache_weight(r) == 0,
{
    moka::sync::Cache::builder()
        .max_capacity(limit)
        .weigher(|_key: &Vec<i128>, output: &Arc<RenderOutput>| image_weight(output))
        .build()
}

/// `moka::sync::Cache::get`: what was last put under the key, unless the cache
/// has dropped it. A cache without time limits takes every entry that fits beside
/// those it has, and drops none before they weigh more than its limit. So while all
/// that was ever put in fits, it has all of it. Nothing is said of which images it
/// drops after that.
#[verifier::external_body]
fn cached(
    cache: &moka::sync::Cache<Vec<i128>, Arc<RenderOutput>>,
    key: &Vec<i128>,
) -> (r: Option<Arc<RenderOutput>>)
    ensures
        r matches Some(output) ==> cache_puts(*cache).contains_key(key@) && cache_puts(
            *cache,
        )[key@] == image(*output),
        cache_puts(*cache).contains_key(key@) && cache_weight(*cache) <= cache_limit(*cache)
            ==> r is Some,
{
    cache.get(key)
}

/// `moka::sync::Cache::insert`: puts the value under the key, in place of what
/// was there.
#[verifier::external_body]
fn put_in_cache(
    cache: &mut moka::sync::Cache<Vec<i128>, Arc<RenderOutput>>,
    key: Vec<i128>,
    output: Arc<RenderOutput>,
)
    ensures
        cache_puts(*final(cache)) == cache_puts(*old(cache)).insert(key@, image(*output)),
        cache_limit(*final(cache)) == cache_limit(*old(cache)),
        cache_weight(*final(cache)) == cache_weight(*old(cache)) + weight(output.bytes@.len()),
{
    cache.insert(key, output);
}

fn copy_of(output: &RenderOutput) -> (r: RenderOutput)
    ensures
        r.bytes@ == output.bytes@,
        r.format == output.format,
{
    RenderOutput { bytes: output.bytes.clone(), format: output.format }
}

/// Images by the request that they answer. Without capacity it is switched off.
pub struct RenderOutputCache {
    inner: Option<moka::sync::Cache<Vec<i128>, Arc<RenderOutput>>>,
}

impl Default for RenderOutputCache {
    fn default() -> (r: RenderOutputCache)
        ensures
            !r.is_on(),
            r.limit() == 0,
            r.puts() == no_images(),
            r.weighed() == 0,
    {
        RenderOutputCache { inner: None }
    }
}

/// Whether the source of a task lets its image be kept.
pub open spec fn may_be_kept(source: Option<SourceRef>) -> bool {
    match source {
        Some(source) => source.policy == CachePolicy::Cacheable,
        None => true,
    }
}

impl RenderOutputCache {
    pub closed spec fn is_on(&self) -> bool {
        self.inner is Some
    }

    /// What was last put into the cache under each key.
    pub closed spec fn puts(&self) -> Map<Seq<i128>, Image> {
        match self.inner {
            Some(cache) => cache_puts(cache),
            None => no_images(),
        }
    }

    /// The weight up to which images are kept.
    pub closed spec fn limit(&self) -> u64 {
        match self.inner {
            Some(cache) => cache_limit(cache),
            None => 0,
        }
    }

    /// The weight of all images that were ever put in, together.
    pub closed spec fn weighed(&self) -> nat {
        match self.inner {
            Some(cache) => cache_weight(cache),
            None => 0,
        }
    }

    /// The image that was last put in under the key is sure to be there still: all
    /// that was ever put in fits.
    pub open spec fn surely_has(&self, key: Seq<i128>) -> bool {
        self.puts().contains_key(key) && self.weighed() <= self.limit()
    }

    /// A cache of the given size in bytes. It is off when the size is zero.
    pub fn new(max_capacity_bytes: u64) -> (r: RenderOutputCache)
        ensures
            r.is_on() == (max_capacity_bytes > 0),
            r.limit() == max_capacity_bytes,
            r.puts() == no_images(),
            r.weighed() == 0,
    {
        if max_capacity_bytes == 0 {
            return RenderOutputCache { inner: None };
        }
        RenderOutputCache { inner: Some(new_cache(max_capacity_bytes)) }
    }

    /// Whether the image of a task may be kept.
    pub fn is_enabled_for(&self, task: &InternalTask) -> (r: bool)
        ensures
            r == (self.is_on() && may_be_kept(task.source)),
    {
        if self.inner.is_none() {
            return false;
        }
        match &task.source {
            Some(source) => source.policy == CachePolicy::Cacheable,
            None => true,
        }
    }

    /// The image of a task, if the cache still has it, as it has while all images
    /// that were ever put in fit. Nothing is said of which images it has after that.
    pub fn get(&self, task: &InternalTask) -> (r: Option<RenderOutput>)
        ensures
            !self.is_on() ==> r is None,
            r matches Some(output) ==> self.puts().contains_key(words_of(task_key(*task)))
                && self.puts()[words_of(task_key(*task))] == image(output),
            self.surely_has(words_of(task_key(*task))) ==> r is Some,
    {
        match &self.inner {
            Some(cache) => {
                let key = RenderCacheKey::from_task(task);
                match cached(cache, &key.words) {
                    Some(output) => Some(copy_of(&output)),
                    None => None,
                }
            },
            None => None,
        }
    }

    /// Keeps the image of a completed task where it may be kept, and says whether
    /// it did.
    pub fn insert_from_outcome(&mut self, task: &InternalTask, outcome: &TaskOutcome) -> (r: bool)
        ensures
            r == (old(self).is_on() && may_be_kept(task.source) && outcome.result is Completed),
            !r ==> *final(self) == *old(self),
            r ==> final(self).puts() == old(self).puts().insert(
                words_of(task_key(*task)),
                image(outcome.result->output),
            ),
            r ==> final(self).weighed() == old(self).weighed() + weight(
                outcome.result->output.bytes@.len(),
            ),
            final(self).is_on() == old(self).is_on(),
            final(self).limit() == old(self).limit(),
    {
        if !self.is_enabled_for(task) {
            return false;
        }
        match &outcome.result {
            TaskResult::Completed { output, .. } => {
                let key = RenderCacheKey::from_task(task);
                match &mut self.inner {
                    Some(cache) => {
                        put_in_cache(cache, key.words, Arc::new(copy_of(output)));
                        true
                    },
                    None => false,
                }
            },
            _ => false,
        }
    }
}

/// The outcome of a task whose image was in the cache at `now`.
pub fn cache_hit_outcome(
    node_id: String,
    task: &InternalTask,
    output: RenderOutput,
    now: u64,
) -> (r: TaskOutcome)
    ensures
        r.task_id == task.id,
        r.request_id@ == task.request_id@,
        r.arrived_at == task.arrived_at,
        r.had_source == (task.source is Some),
        r.deadline_stage is None,
        r.result == (TaskResult::Completed {
            info: (CompletedInfo {
                node_id,
                worker_id: None,
                route_tier: RouteTier::RenderCacheHit,
                started_at: task.arrived_at,
                cpu_started_at: now,
                cpu_completed_at: now,
                completed_at: now,
                style_swap: false,
                cold_start: false,
                source_loaded: false,
                admitted_at_overflow: false,
            }),
            output,
        }),
{
    TaskOutcome {
        task_id: task.id,
        request_id: task.request_id.clone(),
        arrived_at: task.arrived_at,
        had_source: task.source.is_some(),
        deadline_stage: None,
        result: TaskResult::Completed {
            info: CompletedInfo {
                node_id,
                worker_id: None,
                route_tier: RouteTier::RenderCacheHit,
                started_at: task.arrived_at,
                cpu_started_at: now,
                cpu_completed_at: now,
                completed_at: now,
                style_swap: false,
                cold_start: false,
                source_loaded: false,
                admitted_at_overflow: false,
            },
            output,
        },
    }
}

/// Keeping the image of one task changes what can be served for another task
/// exactly when the two ask for the same image, and then to that image.
pub proof fn law_an_image_answers_only_its_own_request(
    puts: Map<Seq<i128>, Image>,
    kept: RenderCacheKey,
    asked: RenderCacheKey,
    left: InternalTask,
    right: InternalTask,
    picture: Image,
)
    requires
        kept.stands_for(task_key(left)),
        asked.stands_for(task_key(right)),
    ensures
        task_key(left) == task_key(right) ==> puts.insert(kept.words@, picture)[asked.words@]
            == picture,
        task_key(left) != task_key(right) ==> puts.insert(kept.words@, picture).contains_key(
            asked.words@,
        ) == puts.contains_key(asked.words@),
        task_key(left) != task_key(right) ==> puts.insert(kept.words@, picture)[asked.words@]
            == puts[asked.words@],
{
    crate::cache_key::law_same_key_means_same_image(kept, asked, left, right);
}

/// What is kept of an image is the image: its bytes and its format.
pub proof fn law_images_are_kept_whole(output: RenderOutput)
    ensures
        image(output).bytes == output.bytes@,
        image(output).format == output.format,
{
}

/// An image weighs as much as it has bytes, but at least one and at most what 32 bits
/// hold.
pub proof fn law_images_weigh_their_bytes(len: nat)
    ensures
        1 <= len <= 0xffff_ffff ==> weight(len) == len,
        len == 0 ==> weight(len) == 1,
        len > 0xffff_ffff ==> weight(len) == 0xffff_ffff,
{
}

/// The image of a task may be kept just if the task has no source of its own, or one that
/// may be cached.
pub proof fn law_sources_decide_what_is_kept(source: SourceRef)
    ensures
        may_be_kept(None),
        may_be_kept(Some(source)) <==> source.policy == CachePolicy::Cacheable,
{
}

} // verus!
