//! Requests as a simulation makes them.
//!
//! Points in time and spans are in nanoseconds; rates, weights and probabilities
//! in thousandths.

use vstd::prelude::*;
use rand_xoshiro::Xoshiro256PlusPlus;
use crate::chance::{
    can_weigh, draw_between, draw_bits, draw_index, draw_weighted, weight_sum,
};
use crate::sim::config::{
    BurstPattern, SourcePattern, SourceProvider, StyleDist, StyleShift, WorkloadConfig,
};
use crate::text::{numeral, numeral_text};
use crate::time::{max_nat, min_nat, monus};
use crate::types::{
    CachePolicy, ImageFormat, InternalTask, Padding, Positioning, RenderRequest, Scale, SourceRef,
    StyleRevision,
};

verus! {

/// The hash bit that sources of one request have, and no others.
pub const ONE_SHOT_BIT: u64 = 0x8000_0000_0000_0000;

/// The requests per second of a part in a million million, over one nanosecond.
pub const ARRIVAL_UNIT: u64 = 1_000_000_000_000;

/// The degrees 139.767, by their bits.
pub const CENTER_LON: u64 = 4_639_121_630_697_980_166;

/// The degrees 35.681, by their bits.
pub const CENTER_LAT: u64 = 4_630_218_471_631_505_850;

/// The zoom 12, by its bits.
pub const CENTER_ZOOM: u64 = 4_622_945_017_495_814_144;

/// The time lies in a burst: bursts come at the start of every period.
pub open spec fn bursts(elapsed: nat, burst: BurstPattern) -> bool {
    burst.period > 0 && elapsed % (burst.period as nat) < burst.duration
}

/// Whether the time lies in a burst.
pub fn in_burst(now: u64, start: u64, burst: &BurstPattern) -> (r: bool)
    ensures
        r == bursts(monus(now as nat, start as nat), *burst),
{
    if burst.period == 0 {
        return false;
    }
    let elapsed: u64 = now.saturating_sub(start);
    elapsed % burst.period < burst.duration
}

/// The rate at some time, in millionths of a request per second.
pub open spec fn rate_at(elapsed: nat, base: nat, burst: Option<BurstPattern>) -> nat {
    match burst {
        Some(b) => if bursts(elapsed, b) {
            base * b.multiplier as nat
        } else {
            base * 1_000
        },
        None => base * 1_000,
    }
}

/// The rate at some time.
pub fn current_rate(now: u64, start: u64, base: u64, burst: &Option<BurstPattern>) -> (r: u128)
    ensures
        r == rate_at(monus(now as nat, start as nat), base as nat, *burst),
        r <= 0xffff_ffff_ffff_fffe_0000_0000_0000_0001,
{
    let factor: u64 = match burst {
        Some(b) => {
            if in_burst(now, start, b) {
                b.multiplier
            } else {
                1_000
            }
        },
        None => 1_000,
    };
    assert(base * factor <= 0xffff_ffff_ffff_ffff * 0xffff_ffff_ffff_ffff) by (nonlinear_arith)
        requires
            base <= 0xffff_ffff_ffff_ffff,
            factor <= 0xffff_ffff_ffff_ffff,
    ;
    base as u128 * factor as u128
}

/// From some time on, the most popular style and another change places.
pub open spec fn shifted(id: u32, now: nat, start: nat, shift: Option<StyleShift>) -> u32 {
    match shift {
        Some(s) => if now >= start + s.at {
            if id == 0 {
                s.with
            } else if id == s.with {
                0
            } else {
                id
            }
        } else {
            id
        },
        None => id,
    }
}

/// The style that is asked for in place of another.
pub fn apply_style_shift(id: u32, now: u64, start: u64, shift: &Option<StyleShift>) -> (r: u32)
    ensures
        r == shifted(id, now as nat, start as nat, *shift),
{
    if let Some(s) = shift {
        if now as u128 >= start as u128 + s.at as u128 {
            if id == 0 {
                return s.with;
            }
            if id == s.with {
                return 0;
            }
        }
    }
    id
}

/// A shift is undone by itself: styles only change places.
pub proof fn law_style_shift_is_an_exchange(
    id: u32,
    now: nat,
    start: nat,
    shift: Option<StyleShift>,
)
    ensures
        shifted(shifted(id, now, start, shift), now, start, shift) == id,
{
}

/// The weights that count for so many choices: the first ones.
pub open spec fn effective(weights: Seq<u64>, n: nat) -> Seq<u64> {
    if weights.len() >= n {
        weights.take(n as int)
    } else {
        weights
    }
}

/// A distribution can be drawn from.
pub open spec fn drawable(dist: StyleDist, n: nat) -> bool {
    match dist {
        StyleDist::Custom(weights) => 0 < weight_sum(effective(weights@, max_nat(n, 1)))
            <= u64::MAX,
        _ => true,
    }
}

/// A rank that was drawn, as an index below `n`.
pub open spec fn rank_index(rank: nat, n: nat) -> nat {
    min_nat(monus(rank, 1), (n - 1) as nat)
}

/// What may be drawn of a distribution over `n`, at least one, where `zipf` draws ranks.
pub open spec fn may_draw<Z: Fn(usize, u64, &mut Xoshiro256PlusPlus) -> u64>(
    dist: StyleDist,
    n: nat,
    zipf: Z,
    r: nat,
) -> bool {
    let m = max_nat(n, 1);
    match dist {
        StyleDist::Uniform => r < m,
        StyleDist::Zipf { alpha } => exists|g: &mut Xoshiro256PlusPlus, rank: u64| #[trigger]
            call_ensures(zipf, (m as usize, alpha, g), rank) && r == rank_index(rank as nat, m),
        StyleDist::Custom(weights) => r < effective(weights@, m).len() && effective(
            weights@,
            m,
        )[r as int] > 0,
    }
}

/// The index of a rank that was drawn, below `n`.
pub fn index_of_rank(rank: u64, n: usize) -> (r: usize)
    requires
        n > 0,
    ensures
        r == rank_index(rank as nat, n as nat),
{
    let index: u64 = rank.saturating_sub(1);
    if index < (n - 1) as u64 {
        index as usize
    } else {
        n - 1
    }
}

fn first_weights(weights: &Vec<u64>, n: usize) -> (r: Vec<u64>)
    ensures
        r@ == effective(weights@, n as nat),
{
    let mut out: Vec<u64> = Vec::new();
    let mut i: usize = 0;
    while i < weights.len() && i < n
        invariant
            i <= weights@.len(),
            i <= n,
            out@ == weights@.take(i as int),
        decreases weights.len() - i,
    {
        out.push(weights[i]);
        i += 1;
        assert(out@ =~= weights@.take(i as int));
    }
    assert(out@ =~= effective(weights@, n as nat));
    out
}

/// Whether a distribution can be drawn from.
pub fn is_drawable(dist: &StyleDist, n: usize) -> (r: bool)
    ensures
        r == drawable(*dist, n as nat),
{
    match dist {
        StyleDist::Custom(weights) => {
            let m: usize = if n >= 1 {
                n
            } else {
                1
            };
            can_weigh(&first_weights(weights, m))
        },
        _ => true,
    }
}

/// Draws from a distribution. A rank by popularity is what `zipf` draws; it is told the
/// number of ranks and the exponent.
pub fn sample_from_dist<Z: Fn(usize, u64, &mut Xoshiro256PlusPlus) -> u64>(
    dist: &StyleDist,
    n: usize,
    zipf: &Z,
    rng: &mut Xoshiro256PlusPlus,
) -> (r: usize)
    requires
        drawable(*dist, n as nat),
        forall|m: usize, alpha: u64, g: &mut Xoshiro256PlusPlus|
            call_requires(*zipf, (m, alpha, g)),
    ensures
        may_draw(*dist, n as nat, *zipf, r as nat),
        r < max_nat(n as nat, 1),
{
    let m: usize = if n >= 1 {
        n
    } else {
        1
    };
    match dist {
        StyleDist::Uniform => draw_index(rng, m),
        StyleDist::Zipf { alpha } => {
            let rank: u64 = zipf(m, *alpha, rng);
            index_of_rank(rank, m)
        },
        StyleDist::Custom(weights) => {
            let chosen = first_weights(weights, m);
            draw_weighted(rng, &chosen)
        },
    }
}

/// The style that a burst is about, if there is one now.
pub open spec fn focus_at(elapsed: nat, burst: Option<BurstPattern>) -> Option<u32> {
    match burst {
        Some(b) => if bursts(elapsed, b) {
            b.style_focus
        } else {
            None
        },
        None => None,
    }
}

/// The style of a request: the one that a burst is about, or else one that is
/// drawn, shifted.
pub fn sample_style<Z: Fn(usize, u64, &mut Xoshiro256PlusPlus) -> u64>(
    now: u64,
    start: u64,
    style_count: usize,
    config: &WorkloadConfig,
    zipf: &Z,
    rng: &mut Xoshiro256PlusPlus,
) -> (r: u32)
    requires
        style_count <= u32::MAX,
        drawable(config.style_distribution, style_count as nat),
        forall|m: usize, alpha: u64, g: &mut Xoshiro256PlusPlus|
            call_requires(*zipf, (m, alpha, g)),
    ensures
        match focus_at(monus(now as nat, start as nat), config.burst_pattern) {
            Some(style) => r == style,
            None => exists|drawn: u32| #[trigger]
                may_draw(config.style_distribution, style_count as nat, *zipf, drawn as nat) && r
                    == shifted(drawn, now as nat, start as nat, config.style_shift),
        },
{
    if let Some(b) = &config.burst_pattern {
        if in_burst(now, start, b) {
            if let Some(focus) = b.style_focus {
                return focus;
            }
        }
    }
    let index: usize = sample_from_dist(&config.style_distribution, style_count, zipf, rng);
    let drawn: u32 = index as u32;
    assert(may_draw(config.style_distribution, style_count as nat, *zipf, drawn as nat));
    apply_style_shift(drawn, now, start, &config.style_shift)
}

/// The first styles are rendered as tiles, the others as static images.
pub open spec fn is_request_for(style: u32, tile_style_count: usize, r: RenderRequest) -> bool {
    if style < tile_style_count {
        r == (RenderRequest::Tile { z: 14, x: 0, y: 0, tile_size: 512 })
    } else {
        match r {
            RenderRequest::StaticImage {
                positioning,
                width,
                height,
                overlays,
                before_layer,
                padding,
                addlayer,
            } => {
                &&& positioning == (Positioning::Center {
                    lon: CENTER_LON,
                    lat: CENTER_LAT,
                    zoom: CENTER_ZOOM,
                    bearing: 0,
                    pitch: 0,
                })
                &&& width == 512
                &&& height == 512
                &&& overlays@.len() == 0
                &&& before_layer is None
                &&& padding == (Padding { top: 0, right: 0, bottom: 0, left: 0 })
                &&& addlayer is None
            },
            _ => false,
        }
    }
}

/// What is rendered of a style.
pub fn render_request_for_style(style: u32, tile_style_count: usize) -> (r: RenderRequest)
    ensures
        is_request_for(style, tile_style_count, r),
{
    if (style as usize) < tile_style_count {
        RenderRequest::Tile { z: 14, x: 0, y: 0, tile_size: 512 }
    } else {
        RenderRequest::StaticImage {
            positioning: Positioning::Center {
                lon: CENTER_LON,
                lat: CENTER_LAT,
                zoom: CENTER_ZOOM,
                bearing: 0,
                pitch: 0,
            },
            width: 512,
            height: 512,
            overlays: Vec::new(),
            before_layer: None,
            padding: Padding::default(),
            addlayer: None,
        }
    }
}

/// How many levels of branches a hash tells apart.
pub const NAMED_LEVELS: usize = 8;

/// Seven bits of each branch of a path, the first one highest.
pub open spec fn branch_stamp(path: Seq<usize>) -> nat
    decreases path.len(),
{
    if path.len() == 0 {
        0
    } else {
        branch_stamp(path.drop_last()) * 128 + (path.last() % 128) as nat
    }
}

/// How many sources have a hash of their own at some depth: what the bits of the
/// branches leave of 63.
pub open spec fn index_room(depth: nat) -> nat
    decreases depth,
{
    if depth <= 1 {
        0x100_0000_0000_0000
    } else {
        index_room((depth - 1) as nat) / 128
    }
}

/// The branches that a hash tells apart.
pub open spec fn named_branches(path: Seq<usize>) -> Seq<usize> {
    path.take(min_nat(path.len(), NAMED_LEVELS as nat) as int)
}

/// The hash of a shared source: its index, below the branches that lead to its
/// provider.
pub open spec fn branch_hash(path: Seq<usize>, index: nat) -> nat {
    let branches = named_branches(path);
    branch_stamp(branches) * index_room(branches.len()) + index % index_room(branches.len())
}

proof fn lemma_index_room(depth: nat)
    requires
        depth <= NAMED_LEVELS,
    ensures
        index_room(depth) > 0,
        index_room(depth) <= 0x100_0000_0000_0000,
        depth >= 2 ==> index_room((depth - 1) as nat) == 128 * index_room(depth),
{
    assert(index_room(0) == 0x100000000000000);
    assert(index_room(1) == 0x100000000000000);
    assert(index_room(2) == 0x2000000000000);
    assert(index_room(3) == 0x40000000000);
    assert(index_room(4) == 0x800000000);
    assert(index_room(5) == 0x10000000);
    assert(index_room(6) == 0x200000);
    assert(index_room(7) == 0x4000);
    assert(index_room(8) == 0x80);
}

proof fn lemma_stamp_fits(path: Seq<usize>)
    requires
        path.len() <= NAMED_LEVELS,
    ensures
        (branch_stamp(path) + 1) * index_room(path.len()) <= ONE_SHOT_BIT,
    decreases path.len(),
{
    lemma_index_room(path.len());
    if path.len() == 1 {
        assert(branch_stamp(path.drop_last()) == 0);
    } else if path.len() > 1 {
        let front = path.drop_last();
        lemma_stamp_fits(front);
        let room = index_room(path.len());
        let high = branch_stamp(front);
        let last = (path.last() % 128) as nat;
        assert((high * 128 + last + 1) * room <= (high + 1) * (128 * room)) by (nonlinear_arith)
            requires
                last < 128,
        ;
    }
}

proof fn lemma_hash_fits(path: Seq<usize>, index: nat)
    ensures
        branch_hash(path, index) < ONE_SHOT_BIT,
{
    let branches = named_branches(path);
    lemma_stamp_fits(branches);
    lemma_index_room(branches.len());
    let stamp = branch_stamp(branches);
    let room = index_room(branches.len());
    let low = index % room;
    assert(stamp * room + low < (stamp + 1) * room) by (nonlinear_arith)
        requires
            low < room,
    ;
}

/// What stands above the room of a depth are the branches down to it.
proof fn lemma_stamp_of_hash(path: Seq<usize>, index: nat, depth: nat)
    requires
        1 <= depth <= path.len(),
        depth <= NAMED_LEVELS,
    ensures
        branch_hash(path, index) / index_room(depth) == branch_stamp(path.take(depth as int)),
    decreases min_nat(path.len(), NAMED_LEVELS as nat) - depth,
{
    let branches = named_branches(path);
    let hash = branch_hash(path, index);
    let room = index_room(depth);
    lemma_index_room(depth);
    if depth == branches.len() {
        let stamp = branch_stamp(branches);
        let low = index % room;
        assert((stamp * room + low) / room == stamp) by (nonlinear_arith)
            requires
                low < room,
        ;
        assert(branches =~= path.take(depth as int));
    } else {
        lemma_stamp_of_hash(path, index, depth + 1);
        lemma_index_room(depth + 1);
        let below = index_room(depth + 1);
        let longer = path.take((depth + 1) as int);
        assert(longer.drop_last() =~= path.take(depth as int));
        assert(hash / (below * 128) == hash / below / 128) by {
            vstd::arithmetic::div_mod::lemma_div_denominator(hash as int, below as int, 128);
        }
        assert(room == below * 128);
    }
}

/// The hash of a shared source, kept apart by the branches that lead to its
/// provider.
pub fn path_namespaced(path: &Vec<usize>, index: u64) -> (r: u64)
    ensures
        r == branch_hash(path@, index as nat),
        r < ONE_SHOT_BIT,
{
    let levels: usize = if path.len() < NAMED_LEVELS {
        path.len()
    } else {
        NAMED_LEVELS
    };
    let mut stamp: u64 = 0;
    let mut room: u64 = 0x100_0000_0000_0000;
    let mut i: usize = 0;
    while i < levels
        invariant
            i <= levels <= path@.len(),
            levels <= NAMED_LEVELS,
            stamp == branch_stamp(path@.take(i as int)),
            room == index_room(i as nat),
        decreases levels - i,
    {
        let ghost more = path@.take(i + 1);
        proof {
            assert(more.drop_last() =~= path@.take(i as int));
            assert(more.last() == path@[i as int]);
            lemma_stamp_fits(more);
            lemma_index_room((i + 1) as nat);
            let full = branch_stamp(more) + 1;
            let left = index_room((i + 1) as nat);
            assert(full <= full * left) by (nonlinear_arith)
                requires
                    left > 0,
            ;
        }
        if i > 0 {
            room = room / 128;
        }
        stamp = stamp * 128 + (path[i] % 128) as u64;
        i += 1;
    }
    proof {
        lemma_index_room(i as nat);
        lemma_hash_fits(path@, index as nat);
        assert(named_branches(path@) =~= path@.take(i as int));
        assert(stamp * room >= 0) by (nonlinear_arith);
    }
    stamp * room + index % room
}

/// Sources whose branches differ at a common depth, within seven bits, do not
/// collide, whatever their indices.
pub proof fn law_branches_do_not_collide(
    p: Seq<usize>,
    q: Seq<usize>,
    depth: int,
    i: nat,
    j: nat,
)
    requires
        0 <= depth < 8,
        depth < p.len(),
        depth < q.len(),
        p[depth] % 128 != q[depth] % 128,
    ensures
        branch_hash(p, i) != branch_hash(q, j),
{
    let d = (depth + 1) as nat;
    lemma_stamp_of_hash(p, i, d);
    lemma_stamp_of_hash(q, j, d);
    assert(p.take(depth + 1).last() == p[depth]);
    assert(q.take(depth + 1).last() == q[depth]);
}

/// Sources of one provider do not collide, as far as their depth leaves room.
pub proof fn law_sources_of_one_provider_do_not_collide(path: Seq<usize>, i: nat, j: nat)
    requires
        i != j,
        i < index_room(named_branches(path).len()),
        j < index_room(named_branches(path).len()),
    ensures
        branch_hash(path, i) != branch_hash(path, j),
{
    let room = index_room(named_branches(path).len());
    assert(i % room == i) by (nonlinear_arith)
        requires
            i < room,
    ;
    assert(j % room == j) by (nonlinear_arith)
        requires
            j < room,
    ;
}

/// The branches lead to a provider of shared sources.
pub open spec fn leads_to_shared(provider: SourceProvider, path: Seq<usize>) -> bool
    decreases provider,
{
    match provider {
        SourceProvider::Shared { .. } => path.len() == 0,
        SourceProvider::Mixed(choices) => path.len() > 0 && path[0] < choices@.len()
            && leads_to_shared(*choices@[path[0] as int].1, path.skip(1)),
        _ => false,
    }
}

/// No mix below a provider, nor itself, has more branches than seven bits count.
pub open spec fn narrow(provider: SourceProvider) -> bool
    decreases provider,
{
    match provider {
        SourceProvider::Mixed(choices) => choices@.len() <= 128 && forall|i: int|
            0 <= i < choices@.len() ==> narrow(*(#[trigger] choices@[i]).1),
        _ => true,
    }
}

/// The depth at which the branches to two providers part.
proof fn lemma_paths_part(provider: SourceProvider, p: Seq<usize>, q: Seq<usize>) -> (depth: int)
    requires
        narrow(provider),
        leads_to_shared(provider, p),
        leads_to_shared(provider, q),
        p != q,
    ensures
        0 <= depth < p.len(),
        depth < q.len(),
        p[depth] % 128 != q[depth] % 128,
    decreases provider,
{
    match provider {
        SourceProvider::Mixed(choices) => {
            if p[0] != q[0] {
                0
            } else {
                let child = choices@[p[0] as int];
                assert(narrow(*child.1));
                if p.skip(1) == q.skip(1) {
                    assert(p =~= seq![p[0]] + p.skip(1));
                    assert(q =~= seq![q[0]] + q.skip(1));
                }
                let below = lemma_paths_part(*child.1, p.skip(1), q.skip(1));
                assert(p.skip(1)[below] == p[below + 1]);
                assert(q.skip(1)[below] == q[below + 1]);
                below + 1
            }
        },
        _ => {
            assert(p =~= q);
            0
        },
    }
}

/// Shared sources of different branches do not collide.
pub proof fn law_shared_providers_do_not_collide(
    provider: SourceProvider,
    p: Seq<usize>,
    q: Seq<usize>,
    i: nat,
    j: nat,
)
    requires
        narrow(provider),
        leads_to_shared(provider, p),
        leads_to_shared(provider, q),
        p != q,
        p.len() <= 8,
    ensures
        branch_hash(p, i) != branch_hash(q, j),
{
    let depth = lemma_paths_part(provider, p, q);
    law_branches_do_not_collide(p, q, depth, i, j);
}

/// Sources that are replaced from time to time.
#[derive(Debug)]
pub struct PeriodicPool {
    /// The branches that lead to the provider.
    pub path: Vec<usize>,
    pub pool: Vec<u64>,
    pub next_refresh: Vec<u64>,
}

impl PeriodicPool {
    /// Every source has a time of its replacement, and the hash of a source that
    /// is kept.
    pub open spec fn wf(&self) -> bool {
        &&& self.pool@.len() == self.next_refresh@.len()
        &&& forall|i: int| 0 <= i < self.pool@.len() ==> #[trigger] self.pool@[i] < ONE_SHOT_BIT
    }
}

/// What makes the sources of requests.
#[derive(Debug)]
pub struct SourceGenState {
    pub periodic_pools: Vec<PeriodicPool>,
    pub oneshot_counter: u64,
}

impl SourceGenState {
    pub open spec fn wf(&self) -> bool {
        forall|i: int|
            0 <= i < self.periodic_pools@.len() ==> (#[trigger] self.periodic_pools@[i]).wf()
    }
}

/// The hash of a source that is kept, for bits that were drawn: the bit of one-shot
/// sources is cleared.
pub fn kept_hash(bits: u64) -> (r: u64)
    ensures
        r == bits % ONE_SHOT_BIT,
{
    bits % ONE_SHOT_BIT
}

/// The time of a replacement after another, `late` of which was drawn.
pub fn refresh_time(from: u64, interval: u64, late: u64) -> (r: u64)
    requires
        from + interval + late <= u64::MAX,
    ensures
        r == from + interval + late,
{
    from + interval + late
}

/// How late a replacement may be: less than the jitter, if there is any.
pub open spec fn may_be_late(jitter: nat, late: nat) -> bool {
    late < jitter || jitter == 0 && late == 0
}

/// How late a replacement is, left to chance.
fn draw_late(jitter: u64, rng: &mut Xoshiro256PlusPlus) -> (r: u64)
    ensures
        may_be_late(jitter as nat, r as nat),
{
    if jitter > 0 {
        draw_between(rng, 0, jitter - 1)
    } else {
        0
    }
}

/// The time of the next replacement.
pub open spec fn is_next_refresh(from: nat, interval: nat, jitter: nat, t: nat) -> bool {
    exists|late: nat| #[trigger] may_be_late(jitter, late) && t == from + interval + late
}

/// Replaces a source of a pool by one with the hash of the bits that were drawn. It
/// is replaced in turn after the interval and `late`, which was drawn.
pub fn replace_source(
    state: &mut PeriodicPool,
    i: usize,
    interval: u64,
    now: u64,
    bits: u64,
    late: u64,
)
    requires
        i < old(state).pool@.len(),
        i < old(state).next_refresh@.len(),
        now + interval + late <= u64::MAX,
    ensures
        final(state).path == old(state).path,
        final(state).pool@ == old(state).pool@.update(i as int, (bits % ONE_SHOT_BIT) as u64),
        final(state).next_refresh@ == old(state).next_refresh@.update(
            i as int,
            (now + interval + late) as u64,
        ),
{
    state.pool.set(i, kept_hash(bits));
    state.next_refresh.set(i, refresh_time(now, interval, late));
}

/// A source is one that was drawn, with the time of its replacement: its hash is that
/// of some bits.
pub open spec fn is_drawn(
    pool: PeriodicPool,
    i: int,
    interval: nat,
    jitter: nat,
    now: nat,
    bits: u64,
    late: nat,
) -> bool {
    &&& pool.pool@[i] == bits % ONE_SHOT_BIT
    &&& may_be_late(jitter, late)
    &&& pool.next_refresh@[i] == now + interval + late
}

/// The sources of a pool that are due are replaced by ones that were drawn, and the
/// others stay.
pub open spec fn refreshed(
    before: PeriodicPool,
    interval: nat,
    jitter: nat,
    now: nat,
    after: PeriodicPool,
) -> bool {
    &&& after.path@ == before.path@
    &&& after.pool@.len() == before.pool@.len()
    &&& after.next_refresh@.len() == before.next_refresh@.len()
    &&& forall|i: int|
        0 <= i < before.pool@.len() ==> if now >= #[trigger] before.next_refresh@[i] {
            exists|bits: u64, late: nat| #[trigger]
                is_drawn(after, i, interval, jitter, now, bits, late)
        } else {
            after.next_refresh@[i] == before.next_refresh@[i] && after.pool@[i] == before.pool@[i]
        }
}

/// Replaces the sources of a pool that are due.
pub fn refresh_pool(
    state: &mut PeriodicPool,
    interval: u64,
    jitter: u64,
    now: u64,
    rng: &mut Xoshiro256PlusPlus,
)
    requires
        old(state).wf(),
        now + interval + jitter <= u64::MAX,
    ensures
        final(state).wf(),
        refreshed(*old(state), interval as nat, jitter as nat, now as nat, *final(state)),
{
    let ghost before = *state;
    let mut i: usize = 0;
    while i < state.pool.len()
        invariant
            i <= state.pool@.len(),
            now + interval + jitter <= u64::MAX,
            before.wf(),
            state.wf(),
            state.path@ == before.path@,
            state.pool@.len() == before.pool@.len(),
            state.next_refresh@.len() == before.next_refresh@.len(),
            forall|k: int|
                0 <= k < i ==> if now >= #[trigger] before.next_refresh@[k] {
                    exists|bits: u64, late: nat| #[trigger]
                        is_drawn(
                            *state,
                            k,
                            interval as nat,
                            jitter as nat,
                            now as nat,
                            bits,
                            late,
                        )
                } else {
                    state.next_refresh@[k] == before.next_refresh@[k] && state.pool@[k]
                        == before.pool@[k]
                },
            forall|k: int|
                i <= k < before.pool@.len() ==> #[trigger] state.pool@[k] == before.pool@[k],
            forall|k: int|
                i <= k < before.pool@.len() ==> #[trigger] state.next_refresh@[k]
                    == before.next_refresh@[k],
        decreases state.pool.len() - i,
    {
        assert(state.next_refresh@[i as int] == before.next_refresh@[i as int]);
        let ghost prev = *state;
        if now >= state.next_refresh[i] {
            let bits: u64 = draw_bits(rng);
            let late: u64 = draw_late(jitter, rng);
            replace_source(state, i, interval, now, bits, late);
            assert(is_drawn(
                *state,
                i as int,
                interval as nat,
                jitter as nat,
                now as nat,
                bits,
                late as nat,
            ));
        }
        assert forall|k: int| 0 <= k < i && now >= #[trigger] before.next_refresh@[k] implies exists|
            bits: u64,
            late: nat,
        | #[trigger]
            is_drawn(
                *state,
                k,
                interval as nat,
                jitter as nat,
                now as nat,
                bits,
                late,
            ) by {
            let (bits, late) = choose|bits: u64, late: nat| #[trigger]
                is_drawn(
                    prev,
                    k,
                    interval as nat,
                    jitter as nat,
                    now as nat,
                    bits,
                    late,
                );
            assert(is_drawn(
                *state,
                k,
                interval as nat,
                jitter as nat,
                now as nat,
                bits,
                late,
            ));
        }
        assert forall|k: int| i < k < before.pool@.len() implies #[trigger] state.pool@[k]
            == before.pool@[k] by {
            assert(prev.pool@[k] == before.pool@[k]);
        }
        assert forall|k: int| i < k < before.pool@.len() implies #[trigger] state.next_refresh@[k]
            == before.next_refresh@[k] by {
            assert(prev.next_refresh@[k] == before.next_refresh@[k]);
        }
        i += 1;
    }
}

/// Every provider below one can be drawn from, and its times can be told.
pub open spec fn usable(provider: SourceProvider, latest: nat) -> bool
    decreases provider,
{
    match provider {
        SourceProvider::Shared { source_count, distribution } => drawable(
            distribution,
            source_count as nat,
        ),
        SourceProvider::PeriodicRefresh { interval, jitter, .. } => latest + interval + jitter
            <= u64::MAX,
        SourceProvider::OneShot => true,
        SourceProvider::Mixed(choices) => {
            &&& choices@.len() > 0 ==> 0 < weight_sum(weights_of(choices@)) <= u64::MAX
            &&& forall|i: int|
                0 <= i < choices@.len() ==> usable(*(#[trigger] choices@[i]).1, latest)
        },
    }
}

/// The weights of choices.
pub open spec fn weights_of(choices: Seq<(u64, Box<SourceProvider>)>) -> Seq<u64> {
    Seq::new(choices.len(), |i: int| choices[i].0)
}

/// The paths to the providers below one whose sources are replaced, in order.
pub open spec fn periodic_paths(provider: SourceProvider, path: Seq<usize>) -> Seq<(Seq<usize>, nat)>
    decreases provider, 0nat,
{
    match provider {
        SourceProvider::PeriodicRefresh { source_count, .. } => seq![(path, source_count as nat)],
        SourceProvider::Mixed(choices) => branch_paths(choices@, path, choices@.len()),
        _ => Seq::empty(),
    }
}

/// The paths below the first `n` branches.
pub open spec fn branch_paths(
    choices: Seq<(u64, Box<SourceProvider>)>,
    path: Seq<usize>,
    n: nat,
) -> Seq<(Seq<usize>, nat)>
    decreases choices, n,
{
    if n == 0 || n > choices.len() {
        Seq::empty()
    } else {
        branch_paths(choices, path, (n - 1) as nat) + periodic_paths(
            *choices[n - 1].1,
            path.push((n - 1) as usize),
        )
    }
}

/// Pools as the paths that lead to them, with their sizes.
pub open spec fn pool_paths(pools: Seq<PeriodicPool>) -> Seq<(Seq<usize>, nat)> {
    Seq::new(pools.len(), |i: int| (pools[i].path@, pools[i].pool@.len()))
}

fn copy_path(path: &Vec<usize>) -> (r: Vec<usize>)
    ensures
        r@ == path@,
{
    let mut out: Vec<usize> = Vec::new();
    let mut i: usize = 0;
    while i < path.len()
        invariant
            i <= path@.len(),
            out@ == path@.take(i as int),
        decreases path.len() - i,
    {
        out.push(path[i]);
        i += 1;
        assert(out@ =~= path@.take(i as int));
    }
    assert(out@ =~= path@);
    out
}

/// A pool of sources for a provider.
fn new_pool(
    path: &Vec<usize>,
    source_count: usize,
    interval: u64,
    jitter: u64,
    start: u64,
    rng: &mut Xoshiro256PlusPlus,
) -> (r: PeriodicPool)
    requires
        start + interval + jitter <= u64::MAX,
    ensures
        r.wf(),
        r.path@ == path@,
        r.pool@.len() == source_count,
        forall|i: int|
            0 <= i < r.next_refresh@.len() ==> is_next_refresh(
                start as nat,
                interval as nat,
                jitter as nat,
                #[trigger] r.next_refresh@[i] as nat,
            ),
{
    let mut pool: Vec<u64> = Vec::new();
    let mut next_refresh: Vec<u64> = Vec::new();
    let mut i: usize = 0;
    while i < source_count
        invariant
            i <= source_count,
            start + interval + jitter <= u64::MAX,
            pool@.len() == i,
            next_refresh@.len() == i,
            forall|k: int| 0 <= k < i ==> #[trigger] pool@[k] < ONE_SHOT_BIT,
            forall|k: int|
                0 <= k < i ==> is_next_refresh(
                    start as nat,
                    interval as nat,
                    jitter as nat,
                    #[trigger] next_refresh@[k] as nat,
                ),
        decreases source_count - i,
    {
        let bits: u64 = draw_bits(rng);
        let late: u64 = draw_late(jitter, rng);
        pool.push(kept_hash(bits));
        next_refresh.push(refresh_time(start, interval, late));
        assert(may_be_late(jitter as nat, late as nat));
        i += 1;
    }
    PeriodicPool { path: copy_path(path), pool, next_refresh }
}

/// Makes a pool for every provider below one whose sources are replaced.
fn walk_for_init(
    provider: &SourceProvider,
    path: &mut Vec<usize>,
    pools: &mut Vec<PeriodicPool>,
    start: u64,
    rng: &mut Xoshiro256PlusPlus,
)
    requires
        usable(*provider, start as nat),
        forall|i: int| 0 <= i < old(pools)@.len() ==> (#[trigger] old(pools)@[i]).wf(),
    ensures
        final(path)@ == old(path)@,
        pool_paths(final(pools)@) == pool_paths(old(pools)@) + periodic_paths(
            *provider,
            old(path)@,
        ),
        forall|i: int| 0 <= i < final(pools)@.len() ==> (#[trigger] final(pools)@[i]).wf(),
    decreases provider,
{
    let ghost before = pool_paths(pools@);
    let ghost home = path@;
    match provider {
        SourceProvider::PeriodicRefresh { source_count, interval, jitter } => {
            let pool = new_pool(path, *source_count, *interval, *jitter, start, rng);
            let ghost entry = (pool.path@, pool.pool@.len());
            pools.push(pool);
            assert(pool_paths(pools@) =~= before + seq![entry]);
        },
        SourceProvider::Mixed(choices) => {
            let mut i: usize = 0;
            assert(before + branch_paths(choices@, home, 0) =~= before);
            while i < choices.len()
                invariant
                    i <= choices@.len(),
                    usable(*provider, start as nat),
                    *provider == SourceProvider::Mixed(*choices),
                    path@ == home,
                    pool_paths(pools@) == before + branch_paths(choices@, home, i as nat),
                    forall|k: int| 0 <= k < pools@.len() ==> (#[trigger] pools@[k]).wf(),
                decreases choices.len() - i,
            {
                path.push(i);
                let child: &SourceProvider = &choices[i].1;
                assert(usable(*choices@[i as int].1, start as nat));
                walk_for_init(child, path, pools, start, rng);
                path.pop();
                assert(path@ =~= home);
                assert(pool_paths(pools@) =~= before + branch_paths(
                    choices@,
                    home,
                    (i + 1) as nat,
                ));
                i += 1;
            }
        },
        _ => {
            assert(pool_paths(pools@) =~= before + periodic_paths(*provider, home));
        },
    }
}

impl SourceGenState {
    /// Makes the pools that a pattern needs.
    pub fn init(pattern: Option<&SourcePattern>, start: u64, rng: &mut Xoshiro256PlusPlus) -> (r:
        SourceGenState)
        requires
            pattern matches Some(p) ==> usable(p.provider, start as nat),
        ensures
            r.wf(),
            r.oneshot_counter == 0,
            pool_paths(r.periodic_pools@) == match pattern {
                Some(p) => periodic_paths(p.provider, Seq::empty()),
                None => Seq::empty(),
            },
    {
        let mut pools: Vec<PeriodicPool> = Vec::new();
        assert(pool_paths(pools@) =~= Seq::<(Seq<usize>, nat)>::empty());
        if let Some(p) = pattern {
            let mut path: Vec<usize> = Vec::new();
            walk_for_init(&p.provider, &mut path, &mut pools, start, rng);
            assert(pool_paths(pools@) =~= periodic_paths(p.provider, Seq::empty()));
        }
        SourceGenState { periodic_pools: pools, oneshot_counter: 0 }
    }

    /// The first pool of a path.
    pub open spec fn pool_at(&self, path: Seq<usize>) -> Option<int> {
        first_pool(self.periodic_pools@, path)
    }

    fn find_pool(&self, path: &Vec<usize>) -> (r: Option<usize>)
        ensures
            match r {
                Some(i) => self.pool_at(path@) == Some(i as int) && i < self.periodic_pools@.len(),
                None => self.pool_at(path@) is None,
            },
    {
        let mut i: usize = 0;
        while i < self.periodic_pools.len()
            invariant
                i <= self.periodic_pools@.len(),
                forall|j: int|
                    0 <= j < i ==> (#[trigger] self.periodic_pools@[j]).path@ != path@,
            decreases self.periodic_pools.len() - i,
        {
            if same_path(&self.periodic_pools[i].path, path) {
                proof {
                    lemma_first_pool(self.periodic_pools@, path@, i as int);
                }
                return Some(i);
            }
            i += 1;
        }
        proof {
            lemma_first_pool(self.periodic_pools@, path@, i as int);
        }
        None
    }
}

fn same_path(a: &Vec<usize>, b: &Vec<usize>) -> (r: bool)
    ensures
        r == (a@ == b@),
{
    if a.len() != b.len() {
        return false;
    }
    let mut i: usize = 0;
    while i < a.len()
        invariant
            i <= a@.len(),
            a@.len() == b@.len(),
            forall|j: int| 0 <= j < i ==> a@[j] == b@[j],
        decreases a.len() - i,
    {
        if a[i] != b[i] {
            assert(a@[i as int] != b@[i as int]);
            return false;
        }
        i += 1;
    }
    assert(a@ =~= b@);
    true
}

/// The first pool of a path.
pub open spec fn first_pool(pools: Seq<PeriodicPool>, path: Seq<usize>) -> Option<int>
    decreases pools.len(),
{
    if pools.len() == 0 {
        None
    } else {
        match first_pool(pools.drop_last(), path) {
            Some(i) => Some(i),
            None => if pools.last().path@ == path {
                Some(pools.len() - 1)
            } else {
                None
            },
        }
    }
}

proof fn lemma_first_pool(pools: Seq<PeriodicPool>, path: Seq<usize>, i: int)
    requires
        0 <= i <= pools.len(),
        i < pools.len() ==> pools[i].path@ == path,
        forall|j: int| 0 <= j < i ==> (#[trigger] pools[j]).path@ != path,
    ensures
        first_pool(pools, path) == if i < pools.len() {
            Some(i)
        } else {
            None
        },
    decreases pools.len(),
{
    if pools.len() > 0 {
        let front = pools.drop_last();
        let k = if i < front.len() {
            i
        } else {
            front.len() as int
        };
        assert forall|j: int| 0 <= j < k implies (#[trigger] front[j]).path@ != path by {
            assert(front[j] == pools[j]);
        }
        if i < front.len() {
            assert(front[i] == pools[i]);
        }
        lemma_first_pool(front, path, k);
        if i == pools.len() {
            assert(pools[pools.len() - 1].path@ != path);
        }
    }
}

/// What may come of asking a provider for a source, and how the pools and the
/// counter change.
pub open spec fn may_give<Z: Fn(usize, u64, &mut Xoshiro256PlusPlus) -> u64>(
    provider: SourceProvider,
    path: Seq<usize>,
    now: nat,
    zipf: Z,
    before: SourceGenState,
    after: SourceGenState,
    r: Option<SourceRef>,
) -> bool
    decreases provider,
{
    match provider {
        SourceProvider::Shared { source_count, distribution } => {
            &&& after == before
            &&& exists|index: nat| #[trigger]
                may_draw(distribution, source_count as nat, zipf, index) && r == Some(
                    SourceRef {
                        hash: branch_hash(path, index) as u64,
                        policy: CachePolicy::Cacheable,
                    },
                )
        },
        SourceProvider::PeriodicRefresh { interval, jitter, .. } => match before.pool_at(path) {
            None => after == before && r is None,
            Some(i) => {
                &&& after.oneshot_counter == before.oneshot_counter
                &&& after.periodic_pools@.len() == before.periodic_pools@.len()
                &&& forall|k: int|
                    0 <= k < before.periodic_pools@.len() && k != i
                        ==> #[trigger] after.periodic_pools@[k] == before.periodic_pools@[k]
                &&& refreshed(
                    before.periodic_pools@[i],
                    interval as nat,
                    jitter as nat,
                    now,
                    after.periodic_pools@[i],
                )
                &&& if before.periodic_pools@[i].pool@.len() == 0 {
                    r is None
                } else {
                    exists|pick: int|
                        0 <= pick < after.periodic_pools@[i].pool@.len() && r == Some(
                            SourceRef {
                                hash: #[trigger] after.periodic_pools@[i].pool@[pick],
                                policy: CachePolicy::Cacheable,
                            },
                        )
                }
            },
        },
        SourceProvider::OneShot => {
            let n = if before.oneshot_counter == u64::MAX {
                0
            } else {
                (before.oneshot_counter + 1) as u64
            };
            &&& after.oneshot_counter == n
            &&& after.periodic_pools == before.periodic_pools
            &&& r == Some(
                SourceRef { hash: one_shot_hash(n), policy: CachePolicy::OneShot },
            )
        },
        SourceProvider::Mixed(choices) => if choices@.len() == 0 {
            after == before && r is None
        } else {
            exists|pick: int|
                0 <= pick < choices@.len() && (#[trigger] choices@[pick]).0 > 0 && may_give(
                    *choices@[pick].1,
                    path.push(pick as usize),
                    now,
                    zipf,
                    before,
                    after,
                    r,
                )
        },
    }
}

/// The source of a pool that was picked.
pub fn kept_source(pool: &PeriodicPool, pick: usize) -> (r: SourceRef)
    requires
        pick < pool.pool@.len(),
    ensures
        r == (SourceRef { hash: pool.pool@[pick as int], policy: CachePolicy::Cacheable }),
{
    SourceRef { hash: pool.pool[pick], policy: CachePolicy::Cacheable }
}

/// Whether a request adds a source, for a number that was drawn below a thousand.
pub fn takes_source(drawn: u64, probability: u64) -> (r: bool)
    ensures
        r == (drawn < probability),
{
    drawn < probability
}

/// A count with the bit of one-shot sources set.
pub open spec fn one_shot_hash(n: u64) -> u64 {
    if n < ONE_SHOT_BIT {
        (n + ONE_SHOT_BIT) as u64
    } else {
        n
    }
}

fn choice_weights(choices: &Vec<(u64, Box<SourceProvider>)>) -> (r: Vec<u64>)
    ensures
        r@ == weights_of(choices@),
{
    let mut out: Vec<u64> = Vec::new();
    let mut i: usize = 0;
    while i < choices.len()
        invariant
            i <= choices@.len(),
            out@ == weights_of(choices@).take(i as int),
        decreases choices.len() - i,
    {
        out.push(choices[i].0);
        i += 1;
        assert(out@ =~= weights_of(choices@).take(i as int));
    }
    assert(out@ =~= weights_of(choices@));
    out
}

/// Whether every provider below one can be drawn from, and its times can be told.
pub fn is_usable(provider: &SourceProvider, latest: u64) -> (r: bool)
    ensures
        r == usable(*provider, latest as nat),
    decreases provider,
{
    match provider {
        SourceProvider::Shared { source_count, distribution } => is_drawable(
            distribution,
            *source_count,
        ),
        SourceProvider::PeriodicRefresh { interval, jitter, .. } => {
            latest as u128 + *interval as u128 + *jitter as u128 <= u64::MAX as u128
        },
        SourceProvider::OneShot => true,
        SourceProvider::Mixed(choices) => {
            if choices.len() > 0 && !can_weigh(&choice_weights(choices)) {
                return false;
            }
            let mut i: usize = 0;
            while i < choices.len()
                invariant
                    i <= choices@.len(),
                    *provider == SourceProvider::Mixed(*choices),
                    forall|k: int|
                        0 <= k < i ==> usable(*(#[trigger] choices@[k]).1, latest as nat),
                decreases choices.len() - i,
            {
                let child: &SourceProvider = &choices[i].1;
                assert(decreases_to!(*provider => provider->Mixed_0@[i as int].1));
                if !is_usable(child, latest) {
                    return false;
                }
                i += 1;
            }
            true
        },
    }
}

impl SourceGenState {
    /// Asks a provider for a source.
    pub fn sample_from_provider<Z: Fn(usize, u64, &mut Xoshiro256PlusPlus) -> u64>(
        &mut self,
        provider: &SourceProvider,
        path: &mut Vec<usize>,
        now: u64,
        zipf: &Z,
        rng: &mut Xoshiro256PlusPlus,
    ) -> (r: Option<SourceRef>)
        requires
            old(self).wf(),
            usable(*provider, now as nat),
            forall|m: usize, alpha: u64, g: &mut Xoshiro256PlusPlus|
                call_requires(*zipf, (m, alpha, g)),
        ensures
            final(self).wf(),
            final(path)@ == old(path)@,
            may_give(
                *provider,
                old(path)@,
                now as nat,
                *zipf,
                *old(self),
                *final(self),
                r,
            ),
        decreases provider,
    {
        let ghost before = *self;
        let ghost home = path@;
        match provider {
            SourceProvider::Shared { source_count, distribution } => {
                let index: usize = sample_from_dist(distribution, *source_count, zipf, rng);
                assert(may_draw(*distribution, *source_count as nat, *zipf, index as nat));
                Some(
                    SourceRef {
                        hash: path_namespaced(path, index as u64),
                        policy: CachePolicy::Cacheable,
                    },
                )
            },
            SourceProvider::PeriodicRefresh { interval, jitter, .. } => {
                let i: usize = match self.find_pool(path) {
                    Some(i) => i,
                    None => {
                        return None;
                    },
                };
                let mut pool = self.periodic_pools.remove(i);
                assert(pool == before.periodic_pools@[i as int]);
                assert(before.periodic_pools@[i as int].wf());
                refresh_pool(&mut pool, *interval, *jitter, now, rng);
                let count: usize = pool.pool.len();
                let ghost after_pool = pool;
                let source: Option<SourceRef> = if count == 0 {
                    None
                } else {
                    let pick: usize = draw_index(rng, count);
                    assert(after_pool.pool@[pick as int] < ONE_SHOT_BIT);
                    Some(kept_source(&pool, pick))
                };
                self.periodic_pools.insert(i, pool);
                proof {
                    let n = before.periodic_pools@.len() as int;
                    assert(self.periodic_pools@.len() == n);
                    assert(self.periodic_pools@[i as int] == after_pool);
                    assert forall|k: int| 0 <= k < n && k != i implies
                        #[trigger] self.periodic_pools@[k] == before.periodic_pools@[k] by {}
                    assert forall|k: int| 0 <= k < n implies (
                    #[trigger] self.periodic_pools@[k]).wf() by {
                        if k != i {
                            assert(self.periodic_pools@[k] == before.periodic_pools@[k]);
                        }
                    }
                }
                source
            },
            SourceProvider::OneShot => {
                self.oneshot_counter = if self.oneshot_counter == u64::MAX {
                    0
                } else {
                    self.oneshot_counter + 1
                };
                let n: u64 = self.oneshot_counter;
                let hash: u64 = if n < ONE_SHOT_BIT {
                    n + ONE_SHOT_BIT
                } else {
                    n
                };
                Some(SourceRef { hash, policy: CachePolicy::OneShot })
            },
            SourceProvider::Mixed(choices) => {
                if choices.len() == 0 {
                    return None;
                }
                let weights = choice_weights(choices);
                let pick: usize = draw_weighted(rng, &weights);
                assert(choices@[pick as int].0 == weights@[pick as int]);
                path.push(pick);
                let child: &SourceProvider = &choices[pick].1;
                assert(usable(*choices@[pick as int].1, now as nat));
                let r = self.sample_from_provider(child, path, now, zipf, rng);
                path.pop();
                assert(path@ =~= home);
                assert(choices@[pick as int].0 > 0);
                r
            },
        }
    }

    /// What may come of asking for the source of a request, if `drawn` was drawn: the
    /// provider is asked, or nothing is.
    pub open spec fn may_add<Z: Fn(usize, u64, &mut Xoshiro256PlusPlus) -> u64>(
        &self,
        drawn: u64,
        pattern: SourcePattern,
        now: nat,
        zipf: Z,
        after: SourceGenState,
        r: Option<SourceRef>,
    ) -> bool {
        if drawn < pattern.probability {
            may_give(pattern.provider, Seq::empty(), now, zipf, *self, after, r)
        } else {
            r is None && after == *self
        }
    }

    /// The source of a request, if it adds one: a number below a thousand is drawn,
    /// and the provider is asked if it lies below the probability.
    pub fn sample<Z: Fn(usize, u64, &mut Xoshiro256PlusPlus) -> u64>(
        &mut self,
        pattern: &SourcePattern,
        now: u64,
        zipf: &Z,
        rng: &mut Xoshiro256PlusPlus,
    ) -> (r: Option<SourceRef>)
        requires
            old(self).wf(),
            usable(pattern.provider, now as nat),
            forall|m: usize, alpha: u64, g: &mut Xoshiro256PlusPlus|
                call_requires(*zipf, (m, alpha, g)),
        ensures
            final(self).wf(),
            exists|drawn: u64|
                drawn < 1_000 && #[trigger] old(self).may_add(
                    drawn,
                    *pattern,
                    now as nat,
                    *zipf,
                    *final(self),
                    r,
                ),
    {
        let drawn: u64 = draw_between(rng, 0, 999);
        let r = self.sample_drawn(drawn, pattern, now, zipf, rng);
        assert(old(self).may_add(drawn, *pattern, now as nat, *zipf, *self, r));
        r
    }

    /// The source of a request for which `drawn` was drawn.
    pub fn sample_drawn<Z: Fn(usize, u64, &mut Xoshiro256PlusPlus) -> u64>(
        &mut self,
        drawn: u64,
        pattern: &SourcePattern,
        now: u64,
        zipf: &Z,
        rng: &mut Xoshiro256PlusPlus,
    ) -> (r: Option<SourceRef>)
        requires
            old(self).wf(),
            usable(pattern.provider, now as nat),
            forall|m: usize, alpha: u64, g: &mut Xoshiro256PlusPlus|
                call_requires(*zipf, (m, alpha, g)),
        ensures
            final(self).wf(),
            old(self).may_add(drawn, *pattern, now as nat, *zipf, *final(self), r),
    {
        if !takes_source(drawn, pattern.probability) {
            return None;
        }
        let mut path: Vec<usize> = Vec::new();
        assert(path@ =~= Seq::<usize>::empty());
        self.sample_from_provider(&pattern.provider, &mut path, now, zipf, rng)
    }
}

/// Sources that are kept and sources of one request never share a hash.
pub proof fn law_one_shot_sources_are_apart<Z: Fn(usize, u64, &mut Xoshiro256PlusPlus) -> u64>(
    provider: SourceProvider,
    path: Seq<usize>,
    now: nat,
    zipf: Z,
    before: SourceGenState,
    after: SourceGenState,
    source: SourceRef,
)
    requires
        before.wf(),
        after.wf(),
        may_give(provider, path, now, zipf, before, after, Some(source)),
    ensures
        source.policy == CachePolicy::OneShot <==> source.hash >= ONE_SHOT_BIT,
    decreases provider,
{
    match provider {
        SourceProvider::Shared { source_count, distribution } => {
            let index = choose|index: nat| #[trigger]
                may_draw(distribution, source_count as nat, zipf, index) && Some(source) == Some(
                    SourceRef {
                        hash: branch_hash(path, index) as u64,
                        policy: CachePolicy::Cacheable,
                    },
                );
            lemma_hash_fits(path, index);
        },
        SourceProvider::PeriodicRefresh { .. } => {
            let i = before.pool_at(path)->0;
            lemma_pool_listed(before.periodic_pools@, path);
            assert(after.periodic_pools@[i].wf());
        },
        SourceProvider::OneShot => {},
        SourceProvider::Mixed(choices) => {
            let pick = choose|pick: int|
                0 <= pick < choices@.len() && (#[trigger] choices@[pick]).0 > 0 && may_give(
                    *choices@[pick].1,
                    path.push(pick as usize),
                    now,
                    zipf,
                    before,
                    after,
                    Some(source),
                );
            law_one_shot_sources_are_apart(
                *choices@[pick].1,
                path.push(pick as usize),
                now,
                zipf,
                before,
                after,
                source,
            );
        },
    }
}

proof fn lemma_pool_listed(pools: Seq<PeriodicPool>, path: Seq<usize>)
    ensures
        first_pool(pools, path) matches Some(i) ==> 0 <= i < pools.len(),
    decreases pools.len(),
{
    if pools.len() > 0 {
        lemma_pool_listed(pools.drop_last(), path);
    }
}

/// How the number of arrivals in a tick is drawn.
#[derive(Clone, Copy, Debug, PartialEq, Eq, Structural)]
pub enum Arrivals {
    Nobody,
    /// At most one, with this chance in a million million.
    Rare { chance: u64 },
    /// By Poisson's distribution, with this mean in a million million.
    Many { mean: u128 },
}

/// The expected arrivals of a tick, in parts of a million million, rounded down.
pub open spec fn expected_arrivals(rate: nat, elapsed: nat) -> nat {
    rate * elapsed / 1_000
}

/// How the number of arrivals is drawn: few are expected one at a time.
pub open spec fn arrivals_for(expected: nat) -> Arrivals {
    if expected == 0 {
        Arrivals::Nobody
    } else if expected < 50_000_000_000 {
        Arrivals::Rare { chance: expected as u64 }
    } else {
        Arrivals::Many { mean: expected as u128 }
    }
}

/// Requests as they arrive.
#[derive(Debug)]
pub struct WorkloadRun {
    pub start: u64,
    pub deadline: u64,
    pub record_after: u64,
    pub last_tick: u64,
    pub next_id: u64,
    pub style_count: usize,
    pub next_new_style_at: Option<u64>,
}

/// The time that a request has to be answered.
pub const REQUEST_DEADLINE: u64 = 30_000_000_000;

impl WorkloadRun {
    /// Begins a run. The first new style comes after `first_new_style`, if new
    /// ones come at all.
    pub fn new(config: &WorkloadConfig, start: u64, first_new_style: Option<u64>) -> (r: WorkloadRun)
        requires
            start + config.duration <= u64::MAX,
            start + config.warmup <= u64::MAX,
            first_new_style matches Some(dt) ==> start + dt <= u64::MAX,
        ensures
            r.start == start,
            r.deadline == start + config.duration,
            r.record_after == start + config.warmup,
            r.last_tick == start,
            r.next_id == 0,
            r.style_count == max_nat(config.style_count as nat, 1),
            r.next_new_style_at == match first_new_style {
                Some(dt) => if config.new_style_rate > 0 {
                    Some((start + dt) as u64)
                } else {
                    None
                },
                None => None,
            },
    {
        let style_count: usize = if config.style_count >= 1 {
            config.style_count
        } else {
            1
        };
        WorkloadRun {
            start,
            deadline: start + config.duration,
            record_after: start + config.warmup,
            last_tick: start,
            next_id: 0,
            style_count,
            next_new_style_at: match first_new_style {
                Some(dt) => {
                    if config.new_style_rate > 0 {
                        Some(start + dt)
                    } else {
                        None
                    }
                },
                None => None,
            },
        }
    }

    /// Whether no more requests come.
    pub fn is_over(&self, now: u64) -> (r: bool)
        ensures
            r == (now >= self.deadline),
    {
        now >= self.deadline
    }

    /// Ends a tick: how many requests came is drawn for the time that it really
    /// took.
    pub fn tick(&mut self, now: u64, config: &WorkloadConfig) -> (r: Arrivals)
        requires
            rate_at(
                monus(now as nat, old(self).start as nat),
                config.total_rate as nat,
                config.burst_pattern,
            ) * monus(now as nat, old(self).last_tick as nat) <= u128::MAX,
        ensures
            *final(self) == (WorkloadRun { last_tick: now, ..*old(self) }),
            r == arrivals_for(
                expected_arrivals(
                    rate_at(
                        monus(now as nat, old(self).start as nat),
                        config.total_rate as nat,
                        config.burst_pattern,
                    ),
                    monus(now as nat, old(self).last_tick as nat),
                ),
            ),
    {
        let elapsed: u64 = now.saturating_sub(self.last_tick);
        self.last_tick = now;
        let rate: u128 = current_rate(now, self.start, config.total_rate, &config.burst_pattern);
        let expected: u128 = rate * elapsed as u128 / 1_000;
        if expected == 0 {
            Arrivals::Nobody
        } else if expected < 50_000_000_000 {
            Arrivals::Rare { chance: expected as u64 }
        } else {
            Arrivals::Many { mean: expected }
        }
    }

    /// Whether a new style has come by now.
    pub fn new_style_due(&self, now: u64) -> (r: bool)
        ensures
            r == (self.next_new_style_at is Some && self.next_new_style_at->0 <= now),
    {
        match self.next_new_style_at {
            Some(t) => t <= now,
            None => false,
        }
    }

    /// A new style comes, and the next one after `dt`.
    pub fn add_style(&mut self, now: u64, dt: u64)
        requires
            old(self).style_count < usize::MAX,
            now + dt <= u64::MAX,
        ensures
            *final(self) == (WorkloadRun {
                style_count: (old(self).style_count + 1) as usize,
                next_new_style_at: Some((now + dt) as u64),
                ..*old(self)
            }),
    {
        self.style_count = self.style_count + 1;
        self.next_new_style_at = Some(now + dt);
    }

    /// The task of a request for a style.
    pub fn next_task(
        &mut self,
        now: u64,
        style: u32,
        source: Option<SourceRef>,
        tile_style_count: usize,
        request_id: String,
    ) -> (r: InternalTask)
        requires
            old(self).next_id < u64::MAX,
            now + REQUEST_DEADLINE <= u64::MAX,
        ensures
            *final(self) == (WorkloadRun { next_id: (old(self).next_id + 1) as u64, ..*old(self) }),
            r.id == old(self).next_id,
            r.request_id == request_id,
            r.style.id@ == "style-"@ + numeral(style as nat),
            r.style.version == 1,
            r.source == source,
            is_request_for(style, tile_style_count, r.request),
            r.pixel_ratio == Scale::X2,
            r.output_format == ImageFormat::Png,
            r.arrived_at == now,
            r.deadline == now + REQUEST_DEADLINE,
            r.forwarding_hops == 0,
    {
        let id: u64 = self.next_id;
        self.next_id = self.next_id + 1;
        let mut name = "style-".to_owned();
        name.push_str(numeral_text(style as u128).as_str());
        InternalTask {
            id,
            request_id,
            style: StyleRevision { id: name, version: 1 },
            source,
            request: render_request_for_style(style, tile_style_count),
            pixel_ratio: Scale::X2,
            output_format: ImageFormat::Png,
            arrived_at: now,
            deadline: now + REQUEST_DEADLINE,
            forwarding_hops: 0,
        }
    }

    /// Whether a task counts in the report: those of the warmup do not.
    pub fn is_recorded(&self, arrived_at: u64) -> (r: bool)
        ensures
            r == (arrived_at >= self.record_after),
    {
        arrived_at >= self.record_after
    }
}

/// One request if the number lies below the chance, or else none.
pub open spec fn rarely(drawn: u64, chance: u64) -> u32 {
    if drawn < chance {
        1
    } else {
        0
    }
}

/// How many requests came, where few are expected and `drawn` was drawn below a
/// million million.
pub fn rare_arrivals(drawn: u64, chance: u64) -> (r: u32)
    ensures
        r == rarely(drawn, chance),
{
    if drawn < chance {
        1
    } else {
        0
    }
}

/// How many requests came, where few are expected: a number below a million million
/// is drawn, and one came if it lies below the chance.
pub fn draw_rare(chance: u64, rng: &mut Xoshiro256PlusPlus) -> (r: u32)
    ensures
        exists|drawn: u64| drawn < ARRIVAL_UNIT && r == #[trigger] rarely(drawn, chance),
{
    let drawn: u64 = draw_between(rng, 0, ARRIVAL_UNIT - 1);
    let r: u32 = rare_arrivals(drawn, chance);
    assert(r == rarely(drawn, chance));
    r
}

/// Bursts come once in a period, at its start, for as long as they last.
pub proof fn law_bursts_come_in_periods(burst: BurstPattern, periods: nat, into: nat)
    ensures
        burst.period > 0 && into < burst.period ==> (bursts(
            periods * burst.period as nat + into,
            burst,
        ) <==> into < burst.duration),
        burst.period == 0 ==> !bursts(into, burst),
{
    if burst.period > 0 && into < burst.period {
        let p = burst.period as int;
        let k = periods as int;
        vstd::arithmetic::div_mod::lemma_fundamental_div_mod_converse(
            k * p + into,
            p,
            k,
            into as int,
        );
        assert((periods * burst.period as nat + into) as int == k * p + into);
    }
}

/// Requests come at the base rate, and in a burst at the base rate times the multiplier;
/// both in millionths.
pub proof fn law_rates_rise_in_bursts(elapsed: nat, base: nat, burst: BurstPattern)
    ensures
        rate_at(elapsed, base, None) == 1_000 * base,
        bursts(elapsed, burst) ==> rate_at(elapsed, base, Some(burst)) == base * burst.multiplier,
        !bursts(elapsed, burst) ==> rate_at(elapsed, base, Some(burst)) == 1_000 * base,
        bursts(elapsed, burst) ==> focus_at(elapsed, Some(burst)) == burst.style_focus,
        !bursts(elapsed, burst) ==> focus_at(elapsed, Some(burst)) is None,
        focus_at(elapsed, None) is None,
{
}

/// Until a shift every style is itself; from then on the first style and the one that it
/// changes with have changed places, and every other is still itself.
pub proof fn law_shifts_exchange_the_first_style(
    id: u32,
    now: nat,
    start: nat,
    shift: StyleShift,
)
    ensures
        shifted(id, now, start, None) == id,
        now < start + shift.at ==> shifted(id, now, start, Some(shift)) == id,
        now >= start + shift.at ==> {
            &&& shifted(0, now, start, Some(shift)) == shift.with
            &&& shifted(shift.with, now, start, Some(shift)) == 0
            &&& id != 0 && id != shift.with ==> shifted(id, now, start, Some(shift)) == id
        },
{
}

/// Ranks count from one: each stands for the index below it, and one beyond the last for
/// the last.
pub proof fn law_ranks_count_from_one(rank: nat, n: nat)
    requires
        n > 0,
    ensures
        1 <= rank <= n ==> rank_index(rank, n) == rank - 1,
        rank == 0 ==> rank_index(rank, n) == 0,
        rank > n ==> rank_index(rank, n) == n - 1,
{
}

/// Only as many weights count as there are styles.
pub proof fn law_weights_count_for_styles(weights: Seq<u64>, n: nat, i: int)
    ensures
        weights.len() <= n ==> effective(weights, n) == weights,
        weights.len() > n ==> effective(weights, n).len() == n,
        0 <= i < n && i < weights.len() ==> effective(weights, n)[i] == weights[i],
{
}

/// The first styles are asked for as tiles, and the others as static images; both of 512
/// pixels.
pub proof fn law_first_styles_are_tiles(style: u32, tile_styles: usize, request: RenderRequest)
    requires
        is_request_for(style, tile_styles, request),
    ensures
        request is Tile <==> style < tile_styles,
        request is Tile ==> request->tile_size == 512 && request->z == 14,
        request is StaticImage ==> request->width == 512 && request->height == 512
            && request->overlays@.len() == 0 && request->addlayer is None,
        request is StaticImage ==> (request->positioning matches Positioning::Center {
            lon,
            lat,
            zoom,
            bearing,
            pitch,
        } && lon == 4_639_121_630_697_980_166 && lat == 4_630_218_471_631_505_850 && zoom
            == 4_622_945_017_495_814_144 && bearing == 0 && pitch == 0),
{
}

/// A source is replaced when its time has come, and its next time is an interval later, and
/// at most by the jitter more; every other source stays.
pub proof fn law_sources_are_replaced_when_due(
    before: PeriodicPool,
    interval: nat,
    jitter: nat,
    now: nat,
    after: PeriodicPool,
    i: int,
)
    requires
        refreshed(before, interval, jitter, now, after),
        before.pool@.len() == before.next_refresh@.len(),
        0 <= i < before.pool@.len(),
    ensures
        after.pool@.len() == before.pool@.len(),
        now < before.next_refresh@[i] ==> after.pool@[i] == before.pool@[i]
            && after.next_refresh@[i] == before.next_refresh@[i],
        now >= before.next_refresh@[i] ==> now + interval <= after.next_refresh@[i] <= now
            + interval + jitter,
        now >= before.next_refresh@[i] && jitter > 0 ==> after.next_refresh@[i] < now + interval
            + jitter,
        now >= before.next_refresh@[i] ==> after.pool@[i] < 0x8000_0000_0000_0000,
{
    if now >= before.next_refresh@[i] {
        let (bits, late) = choose|bits: u64, late: nat| #[trigger]
            is_drawn(after, i, interval, jitter, now, bits, late);
        assert(is_drawn(after, i, interval, jitter, now, bits, late));
    }
}

/// The pool of a provider is the first that was made for its path.
pub proof fn law_pools_are_found_by_path(pools: Seq<PeriodicPool>, path: Seq<usize>, i: int)
    requires
        0 <= i <= pools.len(),
        forall|j: int| 0 <= j < i ==> (#[trigger] pools[j]).path@ != path,
    ensures
        i < pools.len() && pools[i].path@ == path ==> first_pool(pools, path) == Some(i),
        i == pools.len() ==> first_pool(pools, path) is None,
    decreases pools.len(),
{
    if pools.len() > 0 {
        let front = pools.drop_last();
        if i < pools.len() {
            assert forall|j: int| 0 <= j < i implies (#[trigger] front[j]).path@ != path by {
                assert(front[j] == pools[j]);
            }
            law_pools_are_found_by_path(front, path, i);
            if i < front.len() {
                assert(front[i] == pools[i]);
            }
        } else {
            assert forall|j: int| 0 <= j < front.len() implies (#[trigger] front[j]).path@ != path by {
                assert(front[j] == pools[j]);
            }
            law_pools_are_found_by_path(front, path, front.len() as int);
            assert(pools[pools.len() - 1].path@ != path);
        }
    }
}

/// So many requests are to be expected as the rate says for the time that has passed;
/// few enough to be rare, at most one comes.
pub proof fn law_arrivals_follow_the_rate(rate: nat, elapsed: nat, expected: nat, drawn: u64, chance: u64)
    ensures
        1_000 * expected_arrivals(rate, elapsed) <= rate * elapsed < 1_000 * expected_arrivals(
            rate,
            elapsed,
        ) + 1_000,
        expected == 0 <==> arrivals_for(expected) is Nobody,
        0 < expected < 50_000_000_000 ==> arrivals_for(expected) == (Arrivals::Rare {
            chance: expected as u64,
        }),
        50_000_000_000 <= expected <= u128::MAX ==> arrivals_for(expected) == (Arrivals::Many {
            mean: expected as u128,
        }),
        drawn < chance ==> rarely(drawn, chance) == 1,
        drawn >= chance ==> rarely(drawn, chance) == 0,
{
}

/// Sources of one request have hashes of their own, above all those that are kept.
pub proof fn law_one_shot_hashes_count_up(m: u64, n: u64)
    requires
        m < n < 0x8000_0000_0000_0000,
    ensures
        one_shot_hash(m) < one_shot_hash(n),
        one_shot_hash(m) >= 0x8000_0000_0000_0000,
        one_shot_hash(m) - 0x8000_0000_0000_0000 == m,
{
}

/// A request has a source of its provider if the draw falls below the probability, and
/// none if it does not. A provider of shared sources gives one that may be cached, and one
/// of single sources one that may not.
pub proof fn law_sources_come_with_their_probability<
    Z: Fn(usize, u64, &mut Xoshiro256PlusPlus) -> u64,
>(
    before: SourceGenState,
    drawn: u64,
    pattern: SourcePattern,
    now: nat,
    zipf: Z,
    after: SourceGenState,
    r: Option<SourceRef>,
)
    requires
        before.may_add(drawn, pattern, now, zipf, after, r),
    ensures
        drawn >= pattern.probability ==> r is None,
        drawn < pattern.probability && pattern.provider is Shared ==> r is Some && r->0.policy
            == CachePolicy::Cacheable,
        drawn < pattern.probability && pattern.provider is OneShot ==> r is Some && r->0.policy
            == CachePolicy::OneShot,
        drawn < pattern.probability && pattern.provider is OneShot && before.oneshot_counter
            < u64::MAX ==> after.oneshot_counter == before.oneshot_counter + 1,
{
}

/// There is a pool for every provider that refreshes its sources, as large as it has
/// sources.
pub proof fn law_refreshing_providers_have_pools(
    count: usize,
    interval: u64,
    jitter: u64,
    path: Seq<usize>,
)
    ensures
        periodic_paths(
            SourceProvider::PeriodicRefresh { source_count: count, interval, jitter },
            path,
        ) == seq![(path, count as nat)],
        periodic_paths(SourceProvider::OneShot, path).len() == 0,
{
}

/// The pools that were made are those of the providers, path by path.
pub proof fn law_pools_have_their_path(pools: Seq<PeriodicPool>, i: int, from: nat, interval: nat, jitter: nat, t: nat)
    ensures
        pool_paths(pools).len() == pools.len(),
        0 <= i < pools.len() ==> pool_paths(pools)[i].0 == pools[i].path@ && pool_paths(pools)[i].1
            == pools[i].pool@.len(),
        is_next_refresh(from, interval, jitter, t) ==> from + interval <= t <= from + interval
            + jitter,
        is_next_refresh(from, interval, 0, t) ==> t == from + interval,
{
}

/// An index that was drawn is one of those that there are; with weights, one of weight.
pub proof fn law_draws_stay_within_their_number<
    Z: Fn(usize, u64, &mut Xoshiro256PlusPlus) -> u64,
>(dist: StyleDist, n: nat, zipf: Z, r: nat)
    requires
        may_draw(dist, n, zipf, r),
        n > 0,
    ensures
        r < n,
        dist matches StyleDist::Custom(weights) ==> r < weights@.len() && weights@[r as int] > 0,
{
}

/// A request has half a minute to be answered.
pub proof fn law_requests_have_half_a_minute()
    ensures
        REQUEST_DEADLINE == 30_000_000_000,
        ARRIVAL_UNIT == 1_000_000_000_000,
        ONE_SHOT_BIT == 0x8000_0000_0000_0000,
{
}

/// Every index may be drawn, and with weights every one that has a weight.
pub proof fn law_every_weight_may_be_drawn<
    Z: Fn(usize, u64, &mut Xoshiro256PlusPlus) -> u64,
>(weights: Vec<u64>, n: nat, zipf: Z, r: nat)
    requires
        r < n,
    ensures
        may_draw(StyleDist::Uniform, n, zipf, r),
        r < weights@.len() && weights@[r as int] > 0 ==> may_draw(
            StyleDist::Custom(weights),
            n,
            zipf,
            r,
        ),
        drawable(StyleDist::Uniform, n),
{
}

} // verus!
