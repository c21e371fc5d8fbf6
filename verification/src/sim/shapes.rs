//! Render states and shapes, as the labels of calibration series tell them.

use vstd::prelude::*;
use crate::sim::histogram::{
    CalibrationHistogram, CalibrationSeries, MAX_COUNT, MergedHistogram, all_counts, has_label,
    label, label_of, label_views, labelled, law_merged_is_well_formed, merged,
};
use crate::text::{before, law_text_order, precedes, same_text};
use crate::types::{ImageFormat, InternalTask, RenderMode, RenderRequest, Scale};

verus! {

/// What a renderer held of a style before a render.
#[derive(Clone, Copy, Debug, Eq, Ord, PartialEq, PartialOrd, Structural)]
pub enum CalibrationRenderState {
    Warm,
    Cold,
    Swap,
}

impl CalibrationRenderState {
    pub open spec fn text(self) -> Seq<char> {
        match self {
            CalibrationRenderState::Warm => "warm"@,
            CalibrationRenderState::Cold => "cold"@,
            CalibrationRenderState::Swap => "swap"@,
        }
    }

    /// How the state is written in labels.
    pub fn label(self) -> (r: &'static str)
        ensures
            r@ == self.text(),
    {
        match self {
            CalibrationRenderState::Warm => "warm",
            CalibrationRenderState::Cold => "cold",
            CalibrationRenderState::Swap => "swap",
        }
    }
}

/// The render state that labels tell.
pub open spec fn state_of(labels: Seq<(Seq<char>, Seq<char>)>) -> Option<CalibrationRenderState> {
    if labelled(labels, "state"@, "warm"@) {
        Some(CalibrationRenderState::Warm)
    } else if labelled(labels, "state"@, "cold"@) {
        Some(CalibrationRenderState::Cold)
    } else if labelled(labels, "state"@, "swap"@) {
        Some(CalibrationRenderState::Swap)
    } else {
        None
    }
}

/// Reads the render state off labels.
pub fn render_state_from_labels(labels: &Vec<(String, String)>) -> (r: Option<
    CalibrationRenderState,
>)
    ensures
        r == state_of(label_views(labels@)),
{
    if has_label(labels, "state", "warm") {
        Some(CalibrationRenderState::Warm)
    } else if has_label(labels, "state", "cold") {
        Some(CalibrationRenderState::Cold)
    } else if has_label(labels, "state", "swap") {
        Some(CalibrationRenderState::Swap)
    } else {
        None
    }
}

/// What a render makes: its mode, scale, image format and size class.
#[derive(Debug)]
pub struct RenderShapeKey {
    pub render_mode: String,
    pub scale: String,
    pub format: String,
    pub size: String,
}

/// The model of a render shape.
pub struct ShapeView {
    pub render_mode: Seq<char>,
    pub scale: Seq<char>,
    pub format: Seq<char>,
    pub size: Seq<char>,
}

impl View for RenderShapeKey {
    type V = ShapeView;

    open spec fn view(&self) -> ShapeView {
        ShapeView {
            render_mode: self.render_mode@,
            scale: self.scale@,
            format: self.format@,
            size: self.size@,
        }
    }
}

/// The order of shapes: by mode, scale, format and size in turn.
pub open spec fn shape_before(a: ShapeView, b: ShapeView) -> bool {
    ||| before(a.render_mode, b.render_mode)
    ||| a.render_mode == b.render_mode && before(a.scale, b.scale)
    ||| a.render_mode == b.render_mode && a.scale == b.scale && before(a.format, b.format)
    ||| a.render_mode == b.render_mode && a.scale == b.scale && a.format == b.format && before(
        a.size,
        b.size,
    )
}

/// A shape before another is before all that the other is before.
pub proof fn law_shape_order(a: ShapeView, b: ShapeView, c: ShapeView)
    ensures
        shape_before(a, b) && shape_before(b, c) ==> shape_before(a, c),
        !shape_before(a, a),
{
    law_text_order(a.render_mode, b.render_mode, c.render_mode);
    law_text_order(a.scale, b.scale, c.scale);
    law_text_order(a.format, b.format, c.format);
    law_text_order(a.size, b.size, c.size);
}

impl RenderShapeKey {
    pub fn same(&self, other: &RenderShapeKey) -> (r: bool)
        ensures
            r == (self@ == other@),
    {
        same_text(self.render_mode.as_str(), other.render_mode.as_str()) && same_text(
            self.scale.as_str(),
            other.scale.as_str(),
        ) && same_text(self.format.as_str(), other.format.as_str()) && same_text(
            self.size.as_str(),
            other.size.as_str(),
        )
    }

    /// Whether the shape comes before another.
    pub fn comes_before(&self, other: &RenderShapeKey) -> (r: bool)
        ensures
            r == shape_before(self@, other@),
    {
        if !same_text(self.render_mode.as_str(), other.render_mode.as_str()) {
            proof {
                law_text_order(self@.render_mode, other@.render_mode, other@.render_mode);
            }
            return precedes(self.render_mode.as_str(), other.render_mode.as_str());
        }
        proof {
            law_text_order(self@.render_mode, other@.render_mode, other@.render_mode);
            law_text_order(self@.scale, other@.scale, other@.scale);
            law_text_order(self@.format, other@.format, other@.format);
        }
        if !same_text(self.scale.as_str(), other.scale.as_str()) {
            return precedes(self.scale.as_str(), other.scale.as_str());
        }
        if !same_text(self.format.as_str(), other.format.as_str()) {
            return precedes(self.format.as_str(), other.format.as_str());
        }
        precedes(self.size.as_str(), other.size.as_str())
    }

    pub fn copied(&self) -> (r: RenderShapeKey)
        ensures
            r@ == self@,
    {
        RenderShapeKey {
            render_mode: self.render_mode.clone(),
            scale: self.scale.clone(),
            format: self.format.clone(),
            size: self.size.clone(),
        }
    }
}

/// The shape that labels tell, if they tell all of it.
pub open spec fn shape_of(labels: Seq<(Seq<char>, Seq<char>)>) -> Option<ShapeView> {
    match (
        label_of(labels, "render_mode"@),
        label_of(labels, "scale"@),
        label_of(labels, "format"@),
        label_of(labels, "size"@),
    ) {
        (Some(render_mode), Some(scale), Some(format), Some(size)) => Some(
            ShapeView { render_mode, scale, format, size },
        ),
        _ => None,
    }
}

pub open spec fn shape_view(shape: Option<RenderShapeKey>) -> Option<ShapeView> {
    match shape {
        Some(s) => Some(s@),
        None => None,
    }
}

/// Reads the render shape off labels.
pub fn render_shape_from_labels(labels: &Vec<(String, String)>) -> (r: Option<RenderShapeKey>)
    ensures
        shape_view(r) == shape_of(label_views(labels@)),
{
    let render_mode = label(labels, "render_mode")?;
    let scale = label(labels, "scale")?;
    let format = label(labels, "format")?;
    let size = label(labels, "size")?;
    Some(
        RenderShapeKey {
            render_mode: render_mode.clone(),
            scale: scale.clone(),
            format: format.clone(),
            size: size.clone(),
        },
    )
}

pub open spec fn format_text(format: ImageFormat) -> Seq<char> {
    match format {
        ImageFormat::Png => "png"@,
        ImageFormat::Webp => "webp"@,
        ImageFormat::Jpeg => "jpeg"@,
    }
}

/// How an image format is written in labels.
pub fn image_format_label(format: ImageFormat) -> (r: &'static str)
    ensures
        r@ == format_text(format),
{
    match format {
        ImageFormat::Png => "png",
        ImageFormat::Webp => "webp",
        ImageFormat::Jpeg => "jpeg",
    }
}

/// How a render mode is written in labels.
pub fn render_mode_label(mode: RenderMode) -> (r: &'static str)
    ensures
        r@ == mode.text(),
{
    mode.as_gossip_value()
}

/// The longer edge of the rendered image, in pixels.
pub open spec fn longest_edge(task: InternalTask) -> nat {
    let edge: nat = match task.request {
        RenderRequest::Tile { tile_size, .. } => tile_size as nat,
        RenderRequest::StaticImage { width, height, .. } => if width >= height {
            width as nat
        } else {
            height as nat
        },
    };
    edge * match task.pixel_ratio {
        Scale::X1 => 1nat,
        Scale::X2 => 2nat,
    }
}

/// The size class of an edge.
pub open spec fn size_text(edge: nat) -> Seq<char> {
    if edge <= 256 {
        "le_256px"@
    } else if edge <= 512 {
        "le_512px"@
    } else if edge <= 1_024 {
        "le_1024px"@
    } else if edge <= 2_048 {
        "le_2048px"@
    } else {
        "gt_2048px"@
    }
}

/// The size class of what a task renders.
pub fn render_size_label(task: &InternalTask) -> (r: &'static str)
    ensures
        r@ == size_text(longest_edge(*task)),
{
    let logical: u32 = match &task.request {
        RenderRequest::Tile { tile_size, .. } => *tile_size as u32,
        RenderRequest::StaticImage { width, height, .. } => {
            if *width >= *height {
                *width as u32
            } else {
                *height as u32
            }
        },
    };
    let edge: u32 = match task.pixel_ratio {
        Scale::X1 => logical,
        Scale::X2 => logical * 2,
    };
    if edge <= 256 {
        "le_256px"
    } else if edge <= 512 {
        "le_512px"
    } else if edge <= 1_024 {
        "le_1024px"
    } else if edge <= 2_048 {
        "le_2048px"
    } else {
        "gt_2048px"
    }
}

/// The shape of what a task renders.
pub open spec fn task_shape(task: InternalTask) -> ShapeView {
    ShapeView {
        render_mode: task.request.mode().text(),
        scale: task.pixel_ratio.text(),
        format: format_text(task.output_format),
        size: size_text(longest_edge(task)),
    }
}

/// The shape of what a task renders.
pub fn render_shape_for_task(task: &InternalTask) -> (r: RenderShapeKey)
    ensures
        r@ == task_shape(*task),
{
    RenderShapeKey {
        render_mode: render_mode_label(task.request.render_mode()).to_owned(),
        scale: task.pixel_ratio.as_gossip_value().to_owned(),
        format: image_format_label(task.output_format).to_owned(),
        size: render_size_label(task).to_owned(),
    }
}

/// Which series of a family are merged.
#[derive(Debug)]
pub enum SeriesFilter {
    All,
    State(CalibrationRenderState),
    /// First renders of a style: cold ones and swaps.
    First,
    /// Fetches that a render waits for.
    Regular,
    WarmShape(RenderShapeKey),
}

impl SeriesFilter {
    /// The labels pass.
    pub open spec fn admits(&self, labels: Seq<(Seq<char>, Seq<char>)>) -> bool {
        match *self {
            SeriesFilter::All => true,
            SeriesFilter::State(state) => labelled(labels, "state"@, state.text()),
            SeriesFilter::First => labelled(labels, "state"@, "cold"@) || labelled(
                labels,
                "state"@,
                "swap"@,
            ),
            SeriesFilter::Regular => labelled(labels, "priority"@, "regular"@),
            SeriesFilter::WarmShape(shape) => labelled(labels, "state"@, "warm"@) && shape_of(
                labels,
            ) == Some(shape@),
        }
    }

    pub open spec fn test(&self) -> spec_fn(Seq<(Seq<char>, Seq<char>)>) -> bool {
        |labels: Seq<(Seq<char>, Seq<char>)>| self.admits(labels)
    }

    /// Whether labels pass.
    pub fn passes(&self, labels: &Vec<(String, String)>) -> (r: bool)
        ensures
            r == self.admits(label_views(labels@)),
    {
        match self {
            SeriesFilter::All => true,
            SeriesFilter::State(state) => has_label(labels, "state", state.label()),
            SeriesFilter::First => {
                has_label(labels, "state", "cold") || has_label(labels, "state", "swap")
            },
            SeriesFilter::Regular => has_label(labels, "priority", "regular"),
            SeriesFilter::WarmShape(shape) => {
                if !has_label(labels, "state", "warm") {
                    return false;
                }
                match render_shape_from_labels(labels) {
                    Some(found) => found.same(shape),
                    None => false,
                }
            },
        }
    }
}

/// Merges the series of a family that pass a filter.
pub fn merge_series(histogram: &CalibrationHistogram, filter: &SeriesFilter) -> (r: MergedHistogram)
    requires
        histogram.fits(),
    ensures
        r@ == merged(histogram.series@, filter.test()),
        r@.wf(),
{
    let mut out = MergedHistogram::empty();
    let ghost all = histogram.series@;
    let ghost keep = filter.test();
    let mut i: usize = 0;
    assert(all.take(0) =~= Seq::<CalibrationSeries>::empty());
    while i < histogram.series.len()
        invariant
            i <= histogram.series@.len(),
            all == histogram.series@,
            all_counts(all) <= MAX_COUNT,
            keep == filter.test(),
            out@ == merged(all.take(i as int), keep),
            out@.wf(),
        decreases histogram.series.len() - i,
    {
        let series = &histogram.series[i];
        proof {
            assert(all.take(i + 1).drop_last() =~= all.take(i as int));
            assert(all.take(i + 1).last() == *series);
            law_merged_is_well_formed(all.take(i as int), keep);
            lemma_counts_up_to(all, i + 1);
        }
        if filter.passes(&series.labels) {
            out.add(series);
        }
        i += 1;
    }
    assert(all.take(i as int) =~= all);
    out
}

pub(crate) proof fn lemma_counts_up_to(series: Seq<CalibrationSeries>, n: int)
    requires
        0 <= n <= series.len(),
    ensures
        all_counts(series.take(n)) <= all_counts(series),
    decreases series.len() - n,
{
    if n < series.len() {
        assert(series.take(n + 1).drop_last() =~= series.take(n));
        lemma_counts_up_to(series, n + 1);
    } else {
        assert(series.take(n) =~= series);
    }
}

/// A series is warm, cold or swapped as its label says, and nothing if it says nothing
/// else.
pub proof fn law_states_are_labelled(labels: Seq<(Seq<char>, Seq<char>)>)
    ensures
        state_of(labels) == Some(CalibrationRenderState::Warm) <==> label_of(labels, "state"@)
            == Some("warm"@),
        state_of(labels) == Some(CalibrationRenderState::Cold) <==> label_of(labels, "state"@)
            == Some("cold"@),
        state_of(labels) == Some(CalibrationRenderState::Swap) <==> label_of(labels, "state"@)
            == Some("swap"@),
        CalibrationRenderState::Warm.text() == "warm"@,
        CalibrationRenderState::Cold.text() == "cold"@,
        CalibrationRenderState::Swap.text() == "swap"@,
{
    reveal_strlit("warm");
    reveal_strlit("cold");
    reveal_strlit("swap");
    assert("warm"@[0] == 'w' && "cold"@[0] == 'c' && "swap"@[0] == 's');
}

/// The shape of a series is what its four labels say, and a series that lacks one has
/// none.
pub proof fn law_shapes_are_labelled(labels: Seq<(Seq<char>, Seq<char>)>, shape: ShapeView)
    ensures
        shape_of(labels) == Some(shape) <==> label_of(labels, "render_mode"@) == Some(
            shape.render_mode,
        ) && label_of(labels, "scale"@) == Some(shape.scale) && label_of(labels, "format"@) == Some(
            shape.format,
        ) && label_of(labels, "size"@) == Some(shape.size),
{
}

/// The longest edge of an image is that of its tile, or the longer of its two, at the
/// scale that was asked for.
pub proof fn law_the_longest_edge_counts(task: InternalTask)
    ensures
        task.request is Tile && task.pixel_ratio == Scale::X1 ==> longest_edge(task)
            == task.request->tile_size,
        task.request is Tile && task.pixel_ratio == Scale::X2 ==> longest_edge(task) == 2
            * task.request->tile_size,
        task.request is StaticImage && task.pixel_ratio == Scale::X1 ==> longest_edge(task)
            >= task.request->width && longest_edge(task) >= task.request->height && (longest_edge(
            task,
        ) == task.request->width || longest_edge(task) == task.request->height),
        task.request is StaticImage && task.pixel_ratio == Scale::X2 ==> longest_edge(task) >= 2
            * task.request->width && longest_edge(task) >= 2 * task.request->height && (
        longest_edge(task) == 2 * task.request->width || longest_edge(task) == 2
            * task.request->height),
{
}

/// Sizes double from 256 to 2048 pixels, each with those up to it.
pub proof fn law_sizes_double(edge: nat)
    ensures
        edge <= 256 ==> size_text(edge) == "le_256px"@,
        256 < edge <= 512 ==> size_text(edge) == "le_512px"@,
        512 < edge <= 1_024 ==> size_text(edge) == "le_1024px"@,
        1_024 < edge <= 2_048 ==> size_text(edge) == "le_2048px"@,
        edge > 2_048 ==> size_text(edge) == "gt_2048px"@,
{
}

/// The shape of a task is its mode, its scale, its format and its size.
pub proof fn law_tasks_have_a_shape(task: InternalTask)
    ensures
        task.request is Tile ==> task_shape(task).render_mode == "tile"@,
        task.request is StaticImage ==> task_shape(task).render_mode == "static"@,
        task.pixel_ratio == Scale::X1 ==> task_shape(task).scale == "1x"@,
        task.pixel_ratio == Scale::X2 ==> task_shape(task).scale == "2x"@,
        task.output_format == ImageFormat::Png ==> task_shape(task).format == "png"@,
        task.output_format == ImageFormat::Webp ==> task_shape(task).format == "webp"@,
        task.output_format == ImageFormat::Jpeg ==> task_shape(task).format == "jpeg"@,
        task_shape(task).size == size_text(longest_edge(task)),
{
}

/// A filter lets those series through that are labelled as it says.
pub proof fn law_filters_go_by_labels(
    labels: Seq<(Seq<char>, Seq<char>)>,
    state: CalibrationRenderState,
    shape: RenderShapeKey,
)
    ensures
        SeriesFilter::All.admits(labels),
        SeriesFilter::State(state).admits(labels) <==> state_of(labels) == Some(state),
        SeriesFilter::First.admits(labels) <==> state_of(labels) == Some(
            CalibrationRenderState::Cold,
        ) || state_of(labels) == Some(CalibrationRenderState::Swap),
        SeriesFilter::Regular.admits(labels) <==> label_of(labels, "priority"@) == Some(
            "regular"@,
        ),
        SeriesFilter::WarmShape(shape).admits(labels) <==> state_of(labels) == Some(
            CalibrationRenderState::Warm,
        ) && shape_of(labels) == Some(shape@),
        shape@.render_mode == shape.render_mode@,
        shape@.scale == shape.scale@,
        shape@.format == shape.format@,
        shape@.size == shape.size@,
{
    law_states_are_labelled(labels);
}

} // verus!
