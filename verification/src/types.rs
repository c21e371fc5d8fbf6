//! What nodes exchange: tasks, requests and outcomes.
//!
//! Points in time are counted in nanoseconds on the node's own clock.

use vstd::prelude::*;
use crate::overlay::StaticOverlay;

verus! {

/// How a task came to the slot that rendered it.
#[derive(Clone, Copy, Debug, PartialEq, Eq, PartialOrd, Ord, Hash, Structural)]
pub enum RouteTier {
    RenderCacheHit,
    Tier1WarmTracking,
    Tier2HrwBl,
    Tier3DrainSwap,
    Tier4Overflow,
}

/// Why a task was not taken.
#[derive(Clone, Copy, Debug, PartialEq, Eq, PartialOrd, Ord, Hash, Structural)]
pub enum RejectionReason {
    QueueFull,
    NoCapacity,
    DrainTooSlow,
    UnknownStyle,
    HopLimitExceeded,
    ForwardFailed,
    DeadlineTooClose,
    DeadlineExceeded,
}

/// Where a task was when its deadline passed.
#[derive(Clone, Copy, Debug, PartialEq, Eq, Structural)]
pub enum DeadlineStage {
    AcquireRenderPermit,
    StyleSwap,
    EnsureSource,
    AcquireCpuPermit,
    Render,
}

/// What kind of failure ended a task.
#[derive(Clone, Copy, Debug, PartialEq, Eq, Structural)]
pub enum FailureKind {
    RenderTimeout,
    StyleUnavailable,
    SourceUnavailable,
    RendererDead,
    StyleNotReady,
    Other,
}

#[derive(Clone, Copy, Debug, PartialEq, Eq, Hash, Structural)]
pub enum ImageFormat {
    Png,
    Webp,
    Jpeg,
}

#[derive(Clone, Copy, Debug, PartialEq, Eq, Hash, Structural)]
pub enum Scale {
    X1,
    X2,
}

impl Scale {
    pub open spec fn text(self) -> Seq<char> {
        match self {
            Scale::X1 => "1x"@,
            Scale::X2 => "2x"@,
        }
    }

    /// How the scale is written in labels.
    pub fn as_gossip_value(self) -> (r: &'static str)
        ensures
            r@ == self.text(),
    {
        match self {
            Scale::X1 => "1x",
            Scale::X2 => "2x",
        }
    }
}

/// What a renderer is set up for.
#[derive(Clone, Copy, Debug, PartialEq, Eq, Hash, Structural)]
pub enum RenderMode {
    Tile,
    Static,
}

impl RenderMode {
    pub open spec fn text(self) -> Seq<char> {
        match self {
            RenderMode::Tile => "tile"@,
            RenderMode::Static => "static"@,
        }
    }

    /// How the mode is written in labels.
    pub fn as_gossip_value(self) -> (r: &'static str)
        ensures
            r@ == self.text(),
    {
        match self {
            RenderMode::Tile => "tile",
            RenderMode::Static => "static",
        }
    }
}

/// Whether what a source draws may be kept.
#[derive(Clone, Copy, Debug, PartialEq, Eq, Structural)]
pub enum CachePolicy {
    Cacheable,
    OneShot,
}

/// A source added to the style of one request.
#[derive(Clone, Copy, Debug, PartialEq, Eq, Structural)]
pub struct SourceRef {
    pub hash: u64,
    pub policy: CachePolicy,
}

/// A style at one version.
#[derive(Clone, Debug, PartialEq, Eq)]
pub struct StyleRevision {
    pub id: String,
    pub version: u64,
}

/// Free space at the edges of an image, in pixels.
#[derive(Clone, Copy, Debug, PartialEq, Eq, Hash, Structural)]
pub struct Padding {
    pub top: u16,
    pub right: u16,
    pub bottom: u16,
    pub left: u16,
}

impl Padding {
    /// The same space at every edge.
    pub fn all(n: u16) -> (r: Padding)
        ensures
            r == (Padding { top: n, right: n, bottom: n, left: n }),
    {
        Padding { top: n, right: n, bottom: n, left: n }
    }
}

impl Default for Padding {
    fn default() -> (r: Padding)
        ensures
            r == (Padding { top: 0, right: 0, bottom: 0, left: 0 }),
    {
        Padding { top: 0, right: 0, bottom: 0, left: 0 }
    }
}

/// What a static image shows. Numbers are held by their bits: degrees and zoom
/// in double precision, bearing and pitch in single precision.
#[derive(Clone, Copy, Debug, PartialEq, Eq, Hash, Structural)]
pub enum Positioning {
    Center { lon: u64, lat: u64, zoom: u64, bearing: u32, pitch: u32 },
    Bbox { min_lon: u64, min_lat: u64, max_lon: u64, max_lat: u64 },
    Auto,
}

/// A source that a request adds: the tileset and its style-spec source.
#[derive(Clone, Debug, PartialEq, Eq)]
pub struct AddLayerSource {
    pub tileset_id: String,
    pub json: String,
}

/// A layer that a request adds to the style.
#[derive(Clone, Debug, PartialEq, Eq)]
pub struct AddLayer {
    pub json: String,
    pub hash: u64,
    pub source: Option<AddLayerSource>,
}

/// What to render.
#[derive(Debug, PartialEq, Eq)]
pub enum RenderRequest {
    Tile { z: u8, x: u32, y: u32, tile_size: u16 },
    StaticImage {
        positioning: Positioning,
        width: u16,
        height: u16,
        overlays: Vec<StaticOverlay>,
        before_layer: Option<String>,
        padding: Padding,
        addlayer: Option<AddLayer>,
    },
}

impl RenderRequest {
    pub open spec fn mode(self) -> RenderMode {
        match self {
            RenderRequest::Tile { .. } => RenderMode::Tile,
            RenderRequest::StaticImage { .. } => RenderMode::Static,
        }
    }

    /// What a renderer must be set up for.
    pub fn render_mode(&self) -> (r: RenderMode)
        ensures
            r == self.mode(),
    {
        match self {
            RenderRequest::Tile { .. } => RenderMode::Tile,
            RenderRequest::StaticImage { .. } => RenderMode::Static,
        }
    }
}

/// A request inside the cluster.
#[derive(Debug, PartialEq, Eq)]
pub struct InternalTask {
    pub id: u64,
    pub request_id: String,
    pub style: StyleRevision,
    pub source: Option<SourceRef>,
    pub request: RenderRequest,
    pub pixel_ratio: Scale,
    pub output_format: ImageFormat,
    pub arrived_at: u64,
    pub deadline: u64,
    pub forwarding_hops: u8,
}

/// An encoded image.
#[derive(Debug, PartialEq, Eq)]
pub struct RenderOutput {
    pub bytes: Vec<u8>,
    pub format: ImageFormat,
}

/// How a completed task went.
#[derive(Clone, Debug, PartialEq, Eq)]
pub struct CompletedInfo {
    pub node_id: String,
    pub worker_id: Option<usize>,
    pub route_tier: RouteTier,
    pub started_at: u64,
    pub cpu_started_at: u64,
    pub cpu_completed_at: u64,
    pub completed_at: u64,
    pub style_swap: bool,
    pub cold_start: bool,
    pub source_loaded: bool,
    pub admitted_at_overflow: bool,
}

#[derive(Debug, PartialEq, Eq)]
pub enum TaskResult {
    Completed { info: CompletedInfo, output: RenderOutput },
    Rejected { reason: RejectionReason },
    Failed { error: String, kind: FailureKind },
}

/// How a task ended.
#[derive(Debug, PartialEq, Eq)]
pub struct TaskOutcome {
    pub task_id: u64,
    pub request_id: String,
    pub arrived_at: u64,
    pub had_source: bool,
    pub deadline_stage: Option<DeadlineStage>,
    pub result: TaskResult,
}

/// What went wrong in a renderer.
#[derive(Clone, Debug, PartialEq, Eq)]
pub enum RendererError {
    RenderFailed(String),
    StyleLoadFailed { style_id: String, source: String },
    StyleNotReady { style_id: String, version: u64 },
    ActorDead,
    Timeout,
}

/// Why the worker pool did not process a task.
#[derive(Clone, Copy, Debug, PartialEq, Eq, Structural)]
pub enum ProcessError {
    QueueFull,
    QueueDisconnected,
}

/// Tiles are rendered in tile mode, and everything else in static mode.
pub proof fn law_modes_follow_requests(request: RenderRequest)
    ensures
        request is Tile <==> request.mode() == RenderMode::Tile,
        request is StaticImage <==> request.mode() == RenderMode::Static,
{
}

/// Scales and modes are written as they are called.
pub proof fn law_scales_and_modes_have_their_names()
    ensures
        Scale::X1.text() == "1x"@,
        Scale::X2.text() == "2x"@,
        RenderMode::Tile.text() == "tile"@,
        RenderMode::Static.text() == "static"@,
{
}

} // verus!
