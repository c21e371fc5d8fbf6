//! Empirical cost distributions, by what is rendered.

use vstd::prelude::*;
use rand_xoshiro::Xoshiro256PlusPlus;
use crate::sim::histogram::{
    CalibrationHistogram, CalibrationSeries, MAX_COUNT, MergedHistogram, MergedView, all_counts,
    label, label_of, label_views, labelled, has_label, merged, selected, series_histogram, within,
};
use crate::sim::profile::CalibrationProfile;
use crate::sim::shapes::{
    CalibrationRenderState, RenderShapeKey, SeriesFilter, ShapeView, law_states_are_labelled,
    lemma_counts_up_to,
    merge_series, render_shape_for_task, render_shape_from_labels, render_state_from_labels,
    shape_of, state_of, task_shape,
};
use crate::text::same_text;
use crate::types::{InternalTask, RenderMode, Scale};

verus! {

/// Fewer warm renders are no evidence of a cost.
pub const MIN_WARM_RENDER_SAMPLES: u64 = 30_000_000;

/// Fewer samples of anything else are no evidence of a cost.
pub const MIN_OPTIONAL_SAMPLES: u64 = 10_000_000;

/// The metric of render durations.
pub const RENDER_METRIC: &'static str = "biei_render_duration_seconds";

/// The metric of style setup durations.
pub const STYLE_METRIC: &'static str = "biei_style_setup_duration_seconds";

/// The metric of source setup durations.
pub const SOURCE_METRIC: &'static str = "biei_source_setup_duration_seconds";

/// What distributions are kept apart by. Each distribution uses a part of it.
#[derive(Debug)]
pub struct SampleKey {
    pub render_mode: String,
    pub scale: String,
    /// The image format and the size class.
    pub image: Option<(String, String)>,
    pub state: Option<CalibrationRenderState>,
}

/// The model of a sample key.
pub struct KeyView {
    pub render_mode: Seq<char>,
    pub scale: Seq<char>,
    pub image: Option<(Seq<char>, Seq<char>)>,
    pub state: Option<CalibrationRenderState>,
}

impl View for SampleKey {
    type V = KeyView;

    open spec fn view(&self) -> KeyView {
        KeyView {
            render_mode: self.render_mode@,
            scale: self.scale@,
            image: match self.image {
                Some(image) => Some((image.0@, image.1@)),
                None => None,
            },
            state: self.state,
        }
    }
}

fn same_image(a: &Option<(String, String)>, b: &Option<(String, String)>) -> (r: bool)
    ensures
        r == match (*a, *b) {
            (Some(x), Some(y)) => x.0@ == y.0@ && x.1@ == y.1@,
            (None, None) => true,
            _ => false,
        },
{
    match (a, b) {
        (Some(x), Some(y)) => same_text(x.0.as_str(), y.0.as_str()) && same_text(
            x.1.as_str(),
            y.1.as_str(),
        ),
        (None, None) => true,
        _ => false,
    }
}

fn same_state(a: Option<CalibrationRenderState>, b: Option<CalibrationRenderState>) -> (r: bool)
    ensures
        r == (a == b),
{
    match (a, b) {
        (Some(x), Some(y)) => x == y,
        (None, None) => true,
        _ => false,
    }
}

impl SampleKey {
    pub fn same(&self, other: &SampleKey) -> (r: bool)
        ensures
            r == (self@ == other@),
    {
        same_text(self.render_mode.as_str(), other.render_mode.as_str()) && same_text(
            self.scale.as_str(),
            other.scale.as_str(),
        ) && same_image(&self.image, &other.image) && same_state(self.state, other.state)
    }
}

/// The key of a shape in a state.
pub open spec fn shape_key(shape: ShapeView, state: Option<CalibrationRenderState>) -> KeyView {
    KeyView {
        render_mode: shape.render_mode,
        scale: shape.scale,
        image: Some((shape.format, shape.size)),
        state,
    }
}

fn key_of_shape(shape: RenderShapeKey, state: Option<CalibrationRenderState>) -> (r: SampleKey)
    ensures
        r@ == shape_key(shape@, state),
{
    SampleKey {
        render_mode: shape.render_mode,
        scale: shape.scale,
        image: Some((shape.format, shape.size)),
        state,
    }
}

/// What a family of series is kept apart by.
#[derive(Clone, Copy, Debug, PartialEq, Eq, Structural)]
pub enum KeyKind {
    /// By shape and state.
    Render,
    /// By mode, scale and state.
    Style,
    /// By mode and scale.
    Source,
}

/// The key that labels tell, if they tell all of it.
pub open spec fn key_from(kind: KeyKind, labels: Seq<(Seq<char>, Seq<char>)>) -> Option<KeyView> {
    match kind {
        KeyKind::Render => match (shape_of(labels), state_of(labels)) {
            (Some(shape), Some(state)) => Some(shape_key(shape, Some(state))),
            _ => None,
        },
        KeyKind::Style => match (
            label_of(labels, "render_mode"@),
            label_of(labels, "scale"@),
            state_of(labels),
        ) {
            (Some(render_mode), Some(scale), Some(state)) => Some(
                KeyView { render_mode, scale, image: None, state: Some(state) },
            ),
            _ => None,
        },
        KeyKind::Source => match (label_of(labels, "render_mode"@), label_of(labels, "scale"@)) {
            (Some(render_mode), Some(scale)) => Some(
                KeyView { render_mode, scale, image: None, state: None },
            ),
            _ => None,
        },
    }
}

pub open spec fn key_view(key: Option<SampleKey>) -> Option<KeyView> {
    match key {
        Some(k) => Some(k@),
        None => None,
    }
}

/// Reads a key off labels.
pub fn key_from_labels(kind: KeyKind, labels: &Vec<(String, String)>) -> (r: Option<SampleKey>)
    ensures
        key_view(r) == key_from(kind, label_views(labels@)),
{
    match kind {
        KeyKind::Render => {
            let shape = render_shape_from_labels(labels)?;
            let state = render_state_from_labels(labels)?;
            Some(key_of_shape(shape, Some(state)))
        },
        KeyKind::Style => {
            let render_mode = label(labels, "render_mode")?;
            let scale = label(labels, "scale")?;
            let state = render_state_from_labels(labels)?;
            Some(
                SampleKey {
                    render_mode: render_mode.clone(),
                    scale: scale.clone(),
                    image: None,
                    state: Some(state),
                },
            )
        },
        KeyKind::Source => {
            let render_mode = label(labels, "render_mode")?;
            let scale = label(labels, "scale")?;
            Some(
                SampleKey {
                    render_mode: render_mode.clone(),
                    scale: scale.clone(),
                    image: None,
                    state: None,
                },
            )
        },
    }
}

/// Histograms by key.
#[derive(Debug)]
pub struct HistogramTable {
    entries: Vec<(SampleKey, MergedHistogram)>,
}

spec fn map_of(entries: Seq<(SampleKey, MergedHistogram)>) -> Map<KeyView, MergedView>
    decreases entries.len(),
{
    if entries.len() == 0 {
        Map::empty()
    } else {
        map_of(entries.drop_last()).insert(entries.last().0@, entries.last().1@)
    }
}

spec fn distinct(entries: Seq<(SampleKey, MergedHistogram)>) -> bool {
    forall|i: int, j: int|
        0 <= i < entries.len() && 0 <= j < entries.len() && i != j ==> (#[trigger] entries[i]).0@
            != (#[trigger] entries[j]).0@
}

proof fn lemma_map_of(entries: Seq<(SampleKey, MergedHistogram)>)
    requires
        distinct(entries),
    ensures
        forall|i: int|
            0 <= i < entries.len() ==> map_of(entries).dom().contains((#[trigger] entries[i]).0@)
                && map_of(entries)[entries[i].0@] == entries[i].1@,
        forall|k: KeyView| #[trigger]
            map_of(entries).dom().contains(k) ==> exists|i: int|
                0 <= i < entries.len() && (#[trigger] entries[i]).0@ == k,
        map_of(entries).dom().finite(),
        map_of(entries).dom().len() == entries.len(),
    decreases entries.len(),
{
    if entries.len() > 0 {
        let front = entries.drop_last();
        let n = front.len() as int;
        assert forall|i: int, j: int|
            0 <= i < front.len() && 0 <= j < front.len() && i != j implies (#[trigger] front[i]).0@
            != (#[trigger] front[j]).0@ by {
            assert(front[i] == entries[i] && front[j] == entries[j]);
        }
        lemma_map_of(front);
        assert(!map_of(front).dom().contains(entries.last().0@)) by {
            if map_of(front).dom().contains(entries.last().0@) {
                let i = choose|i: int|
                    0 <= i < front.len() && (#[trigger] front[i]).0@ == entries.last().0@;
                assert(entries[i].0@ == entries[n].0@);
            }
        }
        assert forall|i: int| 0 <= i < entries.len() implies map_of(entries).dom().contains(
            (#[trigger] entries[i]).0@,
        ) && map_of(entries)[entries[i].0@] == entries[i].1@ by {
            if i < n {
                assert(front[i] == entries[i]);
                assert(entries[i].0@ != entries[n].0@);
            }
        }
        assert forall|k: KeyView| #[trigger] map_of(entries).dom().contains(k) implies exists|
            i: int,
        |
            0 <= i < entries.len() && (#[trigger] entries[i]).0@ == k by {
            if k == entries.last().0@ {
                assert(entries[n].0@ == k);
            } else {
                assert(map_of(front).dom().contains(k));
                let i = choose|i: int| 0 <= i < front.len() && (#[trigger] front[i]).0@ == k;
                assert(entries[i].0@ == k);
            }
        }
        assert(map_of(entries).dom() =~= map_of(front).dom().insert(entries.last().0@));
    }
}

impl View for HistogramTable {
    type V = Map<KeyView, MergedView>;

    closed spec fn view(&self) -> Map<KeyView, MergedView> {
        map_of(self.entries@)
    }
}

impl HistogramTable {
    /// No key is listed twice, and every histogram is in order.
    pub closed spec fn wf(&self) -> bool {
        &&& distinct(self.entries@)
        &&& forall|i: int| 0 <= i < self.entries@.len() ==> (#[trigger] self.entries@[i]).1@.wf()
    }

    pub fn new() -> (r: HistogramTable)
        ensures
            r.wf(),
            r@ == Map::<KeyView, MergedView>::empty(),
    {
        HistogramTable { entries: Vec::new() }
    }

    fn find(&self, key: &SampleKey) -> (r: Option<usize>)
        requires
            self.wf(),
        ensures
            match r {
                Some(i) => i < self.entries@.len() && self.entries@[i as int].0@ == key@,
                None => forall|i: int|
                    0 <= i < self.entries@.len() ==> (#[trigger] self.entries@[i]).0@ != key@,
            },
    {
        let mut i: usize = 0;
        while i < self.entries.len()
            invariant
                i <= self.entries@.len(),
                forall|j: int| 0 <= j < i ==> (#[trigger] self.entries@[j]).0@ != key@,
            decreases self.entries.len() - i,
        {
            if self.entries[i].0.same(key) {
                return Some(i);
            }
            i += 1;
        }
        None
    }

    /// Lists a histogram, in place of one that was listed under the same key.
    pub fn insert(&mut self, key: SampleKey, histogram: MergedHistogram)
        requires
            old(self).wf(),
            histogram@.wf(),
        ensures
            final(self).wf(),
            final(self)@ == old(self)@.insert(key@, histogram@),
    {
        let ghost before = self.entries@;
        let ghost k = key@;
        let ghost h = histogram@;
        proof {
            lemma_map_of(before);
        }
        match self.find(&key) {
            Some(i) => {
                self.entries.set(i, (key, histogram));
                proof {
                    let after = self.entries@;
                    assert forall|a: int, b: int|
                        0 <= a < after.len() && 0 <= b < after.len() && a != b implies (
                    #[trigger] after[a]).0@ != (#[trigger] after[b]).0@ by {
                        assert(after[a].0@ == before[a].0@ && after[b].0@ == before[b].0@);
                    }
                    lemma_map_of(after);
                    assert forall|x: KeyView| #[trigger]
                        map_of(after).dom().contains(x) == map_of(before).insert(k, h).dom().contains(x) by {
                        if map_of(after).dom().contains(x) {
                            let j = choose|j: int| 0 <= j < after.len() && (#[trigger] after[j]).0@ == x;
                            assert(before[j].0@ == x);
                        }
                        if map_of(before).dom().contains(x) {
                            let j = choose|j: int| 0 <= j < before.len() && (#[trigger] before[j]).0@ == x;
                            assert(after[j].0@ == x);
                        }
                        assert(after[i as int].0@ == k);
                    }
                    assert forall|x: KeyView| #[trigger]
                        map_of(after).dom().contains(x) implies map_of(after)[x] == map_of(
                        before,
                    ).insert(k, h)[x] by {
                        let j = choose|j: int| 0 <= j < after.len() && (#[trigger] after[j]).0@ == x;
                        if j != i {
                            assert(after[j] == before[j]);
                            assert(before[j].0@ != before[i as int].0@);
                        }
                    }
                    assert(map_of(after) =~= map_of(before).insert(k, h));
                }
            },
            None => {
                self.entries.push((key, histogram));
                proof {
                    let after = self.entries@;
                    let n = before.len() as int;
                    assert(after.drop_last() =~= before);
                    assert forall|a: int, b: int|
                        0 <= a < after.len() && 0 <= b < after.len() && a != b implies (
                    #[trigger] after[a]).0@ != (#[trigger] after[b]).0@ by {
                        if a < n {
                            assert(after[a] == before[a]);
                        }
                        if b < n {
                            assert(after[b] == before[b]);
                        }
                    }
                }
            },
        }
    }

    /// The histogram that is listed under a key.
    pub fn get(&self, key: &SampleKey) -> (r: Option<&MergedHistogram>)
        requires
            self.wf(),
        ensures
            match r {
                Some(h) => self@.dom().contains(key@) && self@[key@] == h@ && h@.wf(),
                None => !self@.dom().contains(key@),
            },
    {
        proof {
            lemma_map_of(self.entries@);
        }
        match self.find(key) {
            Some(i) => Some(&self.entries[i].1),
            None => None,
        }
    }

    /// How many keys are listed.
    pub fn len(&self) -> (r: usize)
        requires
            self.wf(),
        ensures
            r == self@.dom().len(),
    {
        proof {
            lemma_map_of(self.entries@);
        }
        self.entries.len()
    }
}

/// Histograms by render state.
#[derive(Debug)]
pub struct StateTable {
    pub warm: Option<MergedHistogram>,
    pub cold: Option<MergedHistogram>,
    pub swap: Option<MergedHistogram>,
}

pub open spec fn option_histogram(h: Option<MergedHistogram>) -> Option<MergedView> {
    match h {
        Some(m) => Some(m@),
        None => None,
    }
}

pub open spec fn one_if(b: bool) -> nat {
    if b {
        1
    } else {
        0
    }
}

impl StateTable {
    pub open spec fn of(&self, state: CalibrationRenderState) -> Option<MergedView> {
        match state {
            CalibrationRenderState::Warm => option_histogram(self.warm),
            CalibrationRenderState::Cold => option_histogram(self.cold),
            CalibrationRenderState::Swap => option_histogram(self.swap),
        }
    }

    pub open spec fn wf(&self) -> bool {
        &&& self.warm matches Some(m) ==> m@.wf()
        &&& self.cold matches Some(m) ==> m@.wf()
        &&& self.swap matches Some(m) ==> m@.wf()
    }

    pub fn get(&self, state: CalibrationRenderState) -> (r: Option<&MergedHistogram>)
        requires
            self.wf(),
        ensures
            match r {
                Some(h) => self.of(state) == Some(h@) && h@.wf(),
                None => self.of(state) is None,
            },
    {
        match state {
            CalibrationRenderState::Warm => self.warm.as_ref(),
            CalibrationRenderState::Cold => self.cold.as_ref(),
            CalibrationRenderState::Swap => self.swap.as_ref(),
        }
    }

    pub fn len(&self) -> (r: usize)
        ensures
            r == one_if(self.warm is Some) + one_if(self.cold is Some) + one_if(self.swap is Some),
    {
        let mut n: usize = 0;
        if self.warm.is_some() {
            n += 1;
        }
        if self.cold.is_some() {
            n += 1;
        }
        if self.swap.is_some() {
            n += 1;
        }
        n
    }
}

/// Empirical distributions of what rendering costs.
#[derive(Debug)]
pub struct EmpiricalCostModel {
    pub render_exact: HistogramTable,
    pub render_by_state: StateTable,
    /// Walls of renders that waited for no resource, by shape.
    pub render_cpu_exact: HistogramTable,
    pub style_exact: HistogramTable,
    pub style_by_state: StateTable,
    pub source_exact: HistogramTable,
    pub source_global: Option<MergedHistogram>,
}

/// How many distributions a model has.
#[derive(Clone, Copy, Debug, PartialEq, Eq, Structural)]
pub struct EmpiricalSamplingCoverage {
    pub render_exact_shapes: usize,
    pub render_state_fallbacks: usize,
    pub render_cpu_exact_shapes: usize,
    pub style_exact_shapes: usize,
    pub style_state_fallbacks: usize,
    pub source_exact_shapes: usize,
    pub source_global_fallback: bool,
}

/// The histograms of series that have a key and enough samples, by key.
pub open spec fn exact_of(series: Seq<CalibrationSeries>, kind: KeyKind) -> Map<KeyView, MergedView>
    decreases series.len(),
{
    if series.len() == 0 {
        Map::empty()
    } else {
        let before = exact_of(series.drop_last(), kind);
        match key_from(kind, label_views(series.last().labels@)) {
            Some(key) => if series.last().sample_count >= MIN_OPTIONAL_SAMPLES {
                before.insert(key, series_histogram(series.last()))
            } else {
                before
            },
            None => before,
        }
    }
}

/// The series of a filter, merged, if they are enough samples.
pub open spec fn enough(
    series: Seq<CalibrationSeries>,
    filter: SeriesFilter,
    least: nat,
) -> Option<MergedView> {
    let m = merged(series, filter.test());
    if m.count >= least {
        Some(m)
    } else {
        None
    }
}

/// The merged histograms of the shapes of warm series, where they are enough
/// samples.
pub open spec fn warm_shapes(
    all: Seq<CalibrationSeries>,
    series: Seq<CalibrationSeries>,
) -> Map<KeyView, MergedView>
    decreases series.len(),
{
    if series.len() == 0 {
        Map::empty()
    } else {
        let before = warm_shapes(all, series.drop_last());
        let labels = label_views(series.last().labels@);
        match shape_of(labels) {
            Some(shape) => {
                let m = merged(all, warm_shape_test(shape));
                if labelled(labels, "state"@, "warm"@) && m.count >= MIN_OPTIONAL_SAMPLES {
                    before.insert(shape_key(shape, None), m)
                } else {
                    before
                }
            },
            None => before,
        }
    }
}

/// Labels of warm renders of one shape.
pub open spec fn warm_shape_test(shape: ShapeView) -> spec_fn(Seq<(Seq<char>, Seq<char>)>) -> bool {
    |labels: Seq<(Seq<char>, Seq<char>)>|
        labelled(labels, "state"@, "warm"@) && shape_of(labels) == Some(shape)
}

fn exact_table(histogram: &CalibrationHistogram, kind: KeyKind) -> (r: HistogramTable)
    requires
        histogram.fits(),
    ensures
        r.wf(),
        r@ == exact_of(histogram.series@, kind),
{
    let mut out = HistogramTable::new();
    let ghost all = histogram.series@;
    let mut i: usize = 0;
    assert(all.take(0) =~= Seq::<CalibrationSeries>::empty());
    while i < histogram.series.len()
        invariant
            i <= histogram.series@.len(),
            all == histogram.series@,
            all_counts(all) <= MAX_COUNT,
            out.wf(),
            out@ == exact_of(all.take(i as int), kind),
        decreases histogram.series.len() - i,
    {
        let series = &histogram.series[i];
        proof {
            assert(all.take(i + 1).drop_last() =~= all.take(i as int));
            assert(all.take(i + 1).last() == *series);
            lemma_counts_up_to(all, i + 1);
        }
        if let Some(key) = key_from_labels(kind, &series.labels) {
            if series.sample_count >= MIN_OPTIONAL_SAMPLES {
                out.insert(key, MergedHistogram::from_series(series));
            }
        }
        i += 1;
    }
    assert(all.take(i as int) =~= all);
    out
}

fn merged_if_enough(histogram: &CalibrationHistogram, filter: SeriesFilter, least: u64) -> (r: Option<
    MergedHistogram,
>)
    requires
        histogram.fits(),
    ensures
        option_histogram(r) == enough(histogram.series@, filter, least as nat),
        r matches Some(m) ==> m@.wf(),
{
    let m = merge_series(histogram, &filter);
    if m.count >= least {
        Some(m)
    } else {
        None
    }
}

/// The series of a metric; none if it was not measured.
pub open spec fn series_of(profile: CalibrationProfile, metric: Seq<char>) -> Seq<CalibrationSeries> {
    match profile.of(metric) {
        Some(h) => h.series@,
        None => Seq::empty(),
    }
}

impl EmpiricalCostModel {
    pub open spec fn wf(&self) -> bool {
        &&& self.render_exact.wf()
        &&& self.render_by_state.wf()
        &&& self.render_cpu_exact.wf()
        &&& self.style_exact.wf()
        &&& self.style_by_state.wf()
        &&& self.source_exact.wf()
        &&& self.source_global matches Some(m) ==> m@.wf()
    }

    /// The model holds what a profile measured, but for the resource-warm
    /// reference.
    pub open spec fn models(&self, profile: CalibrationProfile) -> bool {
        let render = series_of(profile, RENDER_METRIC@);
        let style = series_of(profile, STYLE_METRIC@);
        let source = series_of(profile, SOURCE_METRIC@);
        let optional = MIN_OPTIONAL_SAMPLES as nat;
        &&& self.render_exact@ == exact_of(render, KeyKind::Render)
        &&& option_histogram(self.render_by_state.warm) == enough(
            render,
            SeriesFilter::State(CalibrationRenderState::Warm),
            MIN_WARM_RENDER_SAMPLES as nat,
        )
        &&& option_histogram(self.render_by_state.cold) == enough(
            render,
            SeriesFilter::State(CalibrationRenderState::Cold),
            optional,
        )
        &&& option_histogram(self.render_by_state.swap) == enough(
            render,
            SeriesFilter::State(CalibrationRenderState::Swap),
            optional,
        )
        &&& self.style_exact@ == exact_of(style, KeyKind::Style)
        &&& self.style_by_state.warm is None
        &&& option_histogram(self.style_by_state.cold) == enough(
            style,
            SeriesFilter::State(CalibrationRenderState::Cold),
            optional,
        )
        &&& option_histogram(self.style_by_state.swap) == enough(
            style,
            SeriesFilter::State(CalibrationRenderState::Swap),
            optional,
        )
        &&& self.source_exact@ == exact_of(source, KeyKind::Source)
        &&& option_histogram(self.source_global) == enough(source, SeriesFilter::All, optional)
    }

    /// A model of what a profile measured.
    pub fn from_profile(profile: &CalibrationProfile) -> (r: EmpiricalCostModel)
        requires
            profile.fits(),
        ensures
            r.wf(),
            r.models(*profile),
            r.render_cpu_exact@ == Map::<KeyView, MergedView>::empty(),
    {
        let mut render_exact = HistogramTable::new();
        let mut render_by_state = StateTable { warm: None, cold: None, swap: None };
        let mut style_exact = HistogramTable::new();
        let mut style_by_state = StateTable { warm: None, cold: None, swap: None };
        let mut source_exact = HistogramTable::new();
        let mut source_global: Option<MergedHistogram> = None;
        let warm = CalibrationRenderState::Warm;
        let cold = CalibrationRenderState::Cold;
        let swap = CalibrationRenderState::Swap;
        if let Some(render) = profile.histogram(RENDER_METRIC) {
            render_exact = exact_table(render, KeyKind::Render);
            render_by_state = StateTable {
                warm: merged_if_enough(render, SeriesFilter::State(warm), MIN_WARM_RENDER_SAMPLES),
                cold: merged_if_enough(render, SeriesFilter::State(cold), MIN_OPTIONAL_SAMPLES),
                swap: merged_if_enough(render, SeriesFilter::State(swap), MIN_OPTIONAL_SAMPLES),
            };
        }
        if let Some(style) = profile.histogram(STYLE_METRIC) {
            style_exact = exact_table(style, KeyKind::Style);
            style_by_state = StateTable {
                warm: None,
                cold: merged_if_enough(style, SeriesFilter::State(cold), MIN_OPTIONAL_SAMPLES),
                swap: merged_if_enough(style, SeriesFilter::State(swap), MIN_OPTIONAL_SAMPLES),
            };
        }
        if let Some(source) = profile.histogram(SOURCE_METRIC) {
            source_exact = exact_table(source, KeyKind::Source);
            source_global = merged_if_enough(source, SeriesFilter::All, MIN_OPTIONAL_SAMPLES);
        }
        EmpiricalCostModel {
            render_exact,
            render_by_state,
            render_cpu_exact: HistogramTable::new(),
            style_exact,
            style_by_state,
            source_exact,
            source_global,
        }
    }

    /// How many distributions the model has.
    pub fn coverage(&self) -> (r: EmpiricalSamplingCoverage)
        requires
            self.wf(),
        ensures
            r.render_exact_shapes == self.render_exact@.dom().len(),
            r.render_state_fallbacks == one_if(self.render_by_state.warm is Some) + one_if(
                self.render_by_state.cold is Some,
            ) + one_if(self.render_by_state.swap is Some),
            r.render_cpu_exact_shapes == self.render_cpu_exact@.dom().len(),
            r.style_exact_shapes == self.style_exact@.dom().len(),
            r.style_state_fallbacks == one_if(self.style_by_state.warm is Some) + one_if(
                self.style_by_state.cold is Some,
            ) + one_if(self.style_by_state.swap is Some),
            r.source_exact_shapes == self.source_exact@.dom().len(),
            r.source_global_fallback == self.source_global is Some,
    {
        EmpiricalSamplingCoverage {
            render_exact_shapes: self.render_exact.len(),
            render_state_fallbacks: self.render_by_state.len(),
            render_cpu_exact_shapes: self.render_cpu_exact.len(),
            style_exact_shapes: self.style_exact.len(),
            style_state_fallbacks: self.style_by_state.len(),
            source_exact_shapes: self.source_exact.len(),
            source_global_fallback: self.source_global.is_some(),
        }
    }

    /// Adds the walls of a window whose renders waited for no resource.
    pub fn add_cpu_reference(&mut self, profile: &CalibrationProfile)
        requires
            old(self).wf(),
            old(self).render_cpu_exact@ == Map::<KeyView, MergedView>::empty(),
            profile.fits(),
        ensures
            final(self).wf(),
            final(self).render_cpu_exact@ == warm_shapes(
                series_of(*profile, RENDER_METRIC@),
                series_of(*profile, RENDER_METRIC@),
            ),
            final(self).render_exact == old(self).render_exact,
            final(self).render_by_state == old(self).render_by_state,
            final(self).style_exact == old(self).style_exact,
            final(self).style_by_state == old(self).style_by_state,
            final(self).source_exact == old(self).source_exact,
            final(self).source_global == old(self).source_global,
    {
        let histogram = match profile.histogram(RENDER_METRIC) {
            Some(h) => h,
            None => {
                return;
            },
        };
        let mut out = HistogramTable::new();
        let ghost all = histogram.series@;
        let mut i: usize = 0;
        assert(all.take(0) =~= Seq::<CalibrationSeries>::empty());
        while i < histogram.series.len()
            invariant
                i <= histogram.series@.len(),
                all == histogram.series@,
                histogram.fits(),
                out.wf(),
                out@ == warm_shapes(all, all.take(i as int)),
            decreases histogram.series.len() - i,
        {
            let labels = &histogram.series[i].labels;
            proof {
                assert(all.take(i + 1).drop_last() =~= all.take(i as int));
                assert(all.take(i + 1).last() == histogram.series@[i as int]);
            }
            if let Some(shape) = render_shape_from_labels(labels) {
                if has_label(labels, "state", "warm") {
                    let ghost shown = shape@;
                    let filter = SeriesFilter::WarmShape(shape);
                    assert(filter.test() =~= warm_shape_test(shown));
                    let m = merge_series(histogram, &filter);
                    if m.count >= MIN_OPTIONAL_SAMPLES {
                        if let SeriesFilter::WarmShape(key) = filter {
                            out.insert(key_of_shape(key, None), m);
                        }
                    }
                }
            }
            i += 1;
        }
        assert(all.take(i as int) =~= all);
        self.render_cpu_exact = out;
    }

    /// The distribution of renders like a task's: of its shape, or else of all
    /// renders in its state.
    pub open spec fn render_choice(&self, task: InternalTask, state: CalibrationRenderState) -> Option<
        MergedView,
    > {
        let key = shape_key(task_shape(task), Some(state));
        if self.render_exact@.dom().contains(key) {
            Some(self.render_exact@[key])
        } else {
            self.render_by_state.of(state)
        }
    }

    /// The distribution of renders like a task's.
    pub fn render_histogram(&self, task: &InternalTask, state: CalibrationRenderState) -> (r: Option<
        &MergedHistogram,
    >)
        requires
            self.wf(),
        ensures
            match r {
                Some(h) => self.render_choice(*task, state) == Some(h@) && h@.wf(),
                None => self.render_choice(*task, state) is None,
            },
    {
        let key = key_of_shape(render_shape_for_task(task), Some(state));
        match self.render_exact.get(&key) {
            Some(h) => Some(h),
            None => self.render_by_state.get(state),
        }
    }

    /// The duration of a render like a task's, in nanoseconds, left to chance.
    pub fn sample_render(
        &self,
        task: &InternalTask,
        state: CalibrationRenderState,
        rng: &mut Xoshiro256PlusPlus,
    ) -> (r: Option<u64>)
        requires
            self.wf(),
        ensures
            sampled_from(self.render_choice(*task, state), r),
    {
        match self.render_histogram(task, state) {
            Some(h) => h.sample(rng),
            None => None,
        }
    }

    /// The distribution of renders of a task's shape that waited for no resource.
    pub open spec fn cpu_choice(&self, task: InternalTask) -> Option<MergedView> {
        let key = shape_key(task_shape(task), None);
        if self.render_cpu_exact@.dom().contains(key) {
            Some(self.render_cpu_exact@[key])
        } else {
            None
        }
    }

    /// The duration of such a render, in nanoseconds, left to chance.
    pub fn sample_render_cpu(&self, task: &InternalTask, rng: &mut Xoshiro256PlusPlus) -> (r: Option<
        u64,
    >)
        requires
            self.wf(),
        ensures
            sampled_from(self.cpu_choice(*task), r),
    {
        let key = key_of_shape(render_shape_for_task(task), None);
        match self.render_cpu_exact.get(&key) {
            Some(h) => h.sample(rng),
            None => None,
        }
    }

    /// The distribution of setting up a task's style: of its mode and scale, or
    /// else of all setups in its state.
    pub open spec fn style_choice(&self, task: InternalTask, state: CalibrationRenderState) -> Option<
        MergedView,
    > {
        let key = KeyView {
            render_mode: task.request.mode().text(),
            scale: task.pixel_ratio.text(),
            image: None,
            state: Some(state),
        };
        if self.style_exact@.dom().contains(key) {
            Some(self.style_exact@[key])
        } else {
            self.style_by_state.of(state)
        }
    }

    /// The duration of setting up a task's style, in nanoseconds, left to chance.
    pub fn sample_style_setup(
        &self,
        task: &InternalTask,
        state: CalibrationRenderState,
        rng: &mut Xoshiro256PlusPlus,
    ) -> (r: Option<u64>)
        requires
            self.wf(),
        ensures
            sampled_from(self.style_choice(*task, state), r),
    {
        let key = SampleKey {
            render_mode: task.request.render_mode().as_gossip_value().to_owned(),
            scale: task.pixel_ratio.as_gossip_value().to_owned(),
            image: None,
            state: Some(state),
        };
        assert(key@ == (KeyView {
            render_mode: task.request.mode().text(),
            scale: task.pixel_ratio.text(),
            image: None,
            state: Some(state),
        }));
        match self.style_exact.get(&key) {
            Some(h) => h.sample(rng),
            None => match self.style_by_state.get(state) {
                Some(h) => h.sample(rng),
                None => None,
            },
        }
    }

    /// The distribution of setting up a source: of its mode and scale, or else of
    /// all setups.
    pub open spec fn source_choice(&self, render_mode: RenderMode, scale: Scale) -> Option<MergedView> {
        let key = KeyView {
            render_mode: render_mode.text(),
            scale: scale.text(),
            image: None,
            state: None,
        };
        if self.source_exact@.dom().contains(key) {
            Some(self.source_exact@[key])
        } else {
            option_histogram(self.source_global)
        }
    }

    /// The duration of setting up a source, in nanoseconds, left to chance.
    pub fn sample_source_setup(
        &self,
        render_mode: RenderMode,
        scale: Scale,
        rng: &mut Xoshiro256PlusPlus,
    ) -> (r: Option<u64>)
        requires
            self.wf(),
        ensures
            sampled_from(self.source_choice(render_mode, scale), r),
    {
        let key = SampleKey {
            render_mode: render_mode.as_gossip_value().to_owned(),
            scale: scale.as_gossip_value().to_owned(),
            image: None,
            state: None,
        };
        match self.source_exact.get(&key) {
            Some(h) => h.sample(rng),
            None => match &self.source_global {
                Some(h) => h.sample(rng),
                None => None,
            },
        }
    }
}

/// A draw from a distribution: something if it has samples below a bound, and
/// then within one of its buckets.
pub open spec fn sampled_from(choice: Option<MergedView>, r: Option<u64>) -> bool {
    match choice {
        None => r is None,
        Some(m) => {
            &&& r is Some <==> m.count > 0 && m.buckets.len() > 0
            &&& r matches Some(ns) ==> exists|target: nat|
                target < m.count && within(#[trigger] selected(m.buckets, 0, 0, target), ns as nat)
        },
    }
}

/// The key of a shape holds its mode, its scale, its format and its size, and the state.
pub proof fn law_shape_keys_hold_the_shape(
    shape: ShapeView,
    state: Option<CalibrationRenderState>,
    key: SampleKey,
)
    ensures
        shape_key(shape, state).render_mode == shape.render_mode,
        shape_key(shape, state).scale == shape.scale,
        shape_key(shape, state).image == Some((shape.format, shape.size)),
        shape_key(shape, state).state == state,
        key@.render_mode == key.render_mode@,
        key@.scale == key.scale@,
        key@.state == key.state,
        key.image matches Some(image) ==> key@.image == Some((image.0@, image.1@)),
        key.image is None ==> key@.image is None,
{
}

/// A render is told by its shape and its state, the setup of a style by its mode, its scale
/// and its state, and that of a source by its mode and its scale. A series without one of
/// these has no key.
pub proof fn law_keys_are_labelled(labels: Seq<(Seq<char>, Seq<char>)>, key: KeyView)
    ensures
        key_from(KeyKind::Render, labels) == Some(key) <==> (key.state is Some && state_of(labels)
            == key.state && (key.image matches Some((format, size)) && label_of(labels, "format"@)
            == Some(format) && label_of(labels, "size"@) == Some(size)) && label_of(
            labels,
            "render_mode"@,
        ) == Some(key.render_mode) && label_of(labels, "scale"@) == Some(key.scale)),
        key_from(KeyKind::Style, labels) == Some(key) <==> key.state is Some && state_of(labels)
            == key.state && key.image is None && label_of(labels, "render_mode"@) == Some(
            key.render_mode,
        ) && label_of(labels, "scale"@) == Some(key.scale),
        key_from(KeyKind::Source, labels) == Some(key) <==> key.state is None && key.image is None
            && label_of(labels, "render_mode"@) == Some(key.render_mode) && label_of(
            labels,
            "scale"@,
        ) == Some(key.scale),
{
}

/// A series of at least ten samples that has a key is taken by itself, the last of those
/// with one key; one of fewer, or without a key, is not.
pub proof fn law_series_with_enough_samples_stand_alone(
    series: Seq<CalibrationSeries>,
    one: CalibrationSeries,
    kind: KeyKind,
    key: KeyView,
)
    requires
        key_from(kind, label_views(one.labels@)) == Some(key),
    ensures
        one.sample_count >= 10_000_000 ==> exact_of(series.push(one), kind) == exact_of(
            series,
            kind,
        ).insert(key, series_histogram(one)),
        one.sample_count < 10_000_000 ==> exact_of(series.push(one), kind) == exact_of(
            series,
            kind,
        ),
        exact_of(Seq::empty(), kind) == Map::<KeyView, MergedView>::empty(),
{
    assert(series.push(one).drop_last() =~= series);
}

/// Series are merged into a fallback if they have enough samples together.
pub proof fn law_fallbacks_need_enough_samples(
    series: Seq<CalibrationSeries>,
    filter: SeriesFilter,
    least: nat,
)
    ensures
        merged(series, filter.test()).count >= least ==> enough(series, filter, least) == Some(
            merged(series, filter.test()),
        ),
        merged(series, filter.test()).count < least ==> enough(series, filter, least) is None,
{
}

/// A model falls back on warm renders from thirty samples on, and on everything else from
/// ten.
pub proof fn law_models_fall_back_on_enough_samples(
    model: EmpiricalCostModel,
    profile: CalibrationProfile,
)
    requires
        model.models(profile),
    ensures
        model.render_by_state.warm is Some <==> merged(
            series_of(profile, "biei_render_duration_seconds"@),
            SeriesFilter::State(CalibrationRenderState::Warm).test(),
        ).count >= 30_000_000,
        model.render_by_state.cold is Some <==> merged(
            series_of(profile, "biei_render_duration_seconds"@),
            SeriesFilter::State(CalibrationRenderState::Cold).test(),
        ).count >= 10_000_000,
        model.render_by_state.swap is Some <==> merged(
            series_of(profile, "biei_render_duration_seconds"@),
            SeriesFilter::State(CalibrationRenderState::Swap).test(),
        ).count >= 10_000_000,
        model.style_by_state.warm is None,
        model.style_by_state.cold is Some <==> merged(
            series_of(profile, "biei_style_setup_duration_seconds"@),
            SeriesFilter::State(CalibrationRenderState::Cold).test(),
        ).count >= 10_000_000,
        model.style_by_state.swap is Some <==> merged(
            series_of(profile, "biei_style_setup_duration_seconds"@),
            SeriesFilter::State(CalibrationRenderState::Swap).test(),
        ).count >= 10_000_000,
        model.source_global is Some <==> merged(
            series_of(profile, "biei_source_setup_duration_seconds"@),
            SeriesFilter::All.test(),
        ).count >= 10_000_000,
{
}

/// A time is drawn from the histogram of its own key, if there is one, and else from the
/// one of its state, or of all.
pub proof fn law_own_histograms_come_first(
    model: EmpiricalCostModel,
    task: InternalTask,
    state: CalibrationRenderState,
    key: KeyView,
)
    ensures
        key == (KeyView {
            render_mode: task_shape(task).render_mode,
            scale: task_shape(task).scale,
            image: Some((task_shape(task).format, task_shape(task).size)),
            state: Some(state),
        }) ==> {
            &&& model.render_exact@.contains_key(key) ==> model.render_choice(task, state) == Some(
                model.render_exact@[key],
            )
            &&& !model.render_exact@.contains_key(key) ==> model.render_choice(task, state)
                == model.render_by_state.of(state)
        },
        key == (KeyView {
            render_mode: task_shape(task).render_mode,
            scale: task_shape(task).scale,
            image: Some((task_shape(task).format, task_shape(task).size)),
            state: None,
        }) ==> {
            &&& model.render_cpu_exact@.contains_key(key) ==> model.cpu_choice(task) == Some(
                model.render_cpu_exact@[key],
            )
            &&& !model.render_cpu_exact@.contains_key(key) ==> model.cpu_choice(task) is None
        },
        key == (KeyView {
            render_mode: task_shape(task).render_mode,
            scale: task_shape(task).scale,
            image: None,
            state: Some(state),
        }) ==> {
            &&& model.style_exact@.contains_key(key) ==> model.style_choice(task, state) == Some(
                model.style_exact@[key],
            )
            &&& !model.style_exact@.contains_key(key) ==> model.style_choice(task, state)
                == model.style_by_state.of(state)
        },
        key == (KeyView {
            render_mode: task_shape(task).render_mode,
            scale: task_shape(task).scale,
            image: None,
            state: None,
        }) ==> {
            &&& model.source_exact@.contains_key(key) ==> model.source_choice(
                task.request.mode(),
                task.pixel_ratio,
            ) == Some(model.source_exact@[key])
            &&& !model.source_exact@.contains_key(key) ==> model.source_choice(
                task.request.mode(),
                task.pixel_ratio,
            ) == option_histogram(model.source_global)
        },
{
}

/// Each state has its own histogram.
pub proof fn law_states_have_their_own_histograms(table: StateTable)
    ensures
        table.warm matches Some(m) ==> table.of(CalibrationRenderState::Warm) == Some(m@),
        table.cold matches Some(m) ==> table.of(CalibrationRenderState::Cold) == Some(m@),
        table.swap matches Some(m) ==> table.of(CalibrationRenderState::Swap) == Some(m@),
        table.warm is None ==> table.of(CalibrationRenderState::Warm) is None,
        table.cold is None ==> table.of(CalibrationRenderState::Cold) is None,
        table.swap is None ==> table.of(CalibrationRenderState::Swap) is None,
{
}

/// A time that was drawn lies within the bounds of its histogram, and none is drawn from
/// one without samples.
pub proof fn law_times_are_drawn_from_histograms(m: MergedView, r: Option<u64>)
    ensures
        sampled_from(None, r) <==> r is None,
        sampled_from(Some(m), r) && (m.count == 0 || m.buckets.len() == 0) ==> r is None,
        sampled_from(Some(m), r) && m.count > 0 && m.buckets.len() > 0 ==> r is Some,
{
}

/// A warm series adds the shape that it has, with all warm samples of the shape, if they
/// are at least ten.
pub proof fn law_warm_shapes_need_enough_samples(
    all: Seq<CalibrationSeries>,
    series: Seq<CalibrationSeries>,
    one: CalibrationSeries,
    shape: ShapeView,
)
    requires
        shape_of(label_views(one.labels@)) == Some(shape),
    ensures
        state_of(label_views(one.labels@)) == Some(CalibrationRenderState::Warm) && merged(
            all,
            warm_shape_test(shape),
        ).count >= 10_000_000 ==> warm_shapes(all, series.push(one)) == warm_shapes(
            all,
            series,
        ).insert(shape_key(shape, None), merged(all, warm_shape_test(shape))),
        state_of(label_views(one.labels@)) != Some(CalibrationRenderState::Warm) || merged(
            all,
            warm_shape_test(shape),
        ).count < 10_000_000 ==> warm_shapes(all, series.push(one)) == warm_shapes(all, series),
{
    assert(series.push(one).drop_last() =~= series);
    law_states_are_labelled(label_views(one.labels@));
}

} // verus!
