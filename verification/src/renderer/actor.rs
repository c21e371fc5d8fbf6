//! The decisions of the thread that owns a renderer, and of those who own the
//! thread.

use vstd::prelude::*;
use crate::renderer::supervisor::{total, RendererActorSupervisor};
use crate::text::{after_prefix, begins_with, chars_of};
use crate::types::{
    ImageFormat, InternalTask, Padding, Positioning, RenderMode, RenderRequest, RendererError,
    Scale, StyleRevision,
};

verus! {

/// How a renderer thread is set up.
#[derive(Clone, Debug)]
pub struct RendererActorConfig {
    pub worker_id: usize,
    pub ambient_cache_path: Option<String>,
}

/// A style with its document.
#[derive(Clone, Debug)]
pub struct ResolvedStyle {
    pub revision: StyleRevision,
    pub style_json: String,
}

/// Whether two revisions name the same style at the same version.
pub fn same_revision(a: &StyleRevision, b: &StyleRevision) -> (r: bool)
    ensures
        r == (a.id@ == b.id@ && a.version == b.version),
{
    a.id == b.id && a.version == b.version
}

/// What a revision names.
pub open spec fn revision_view(r: StyleRevision) -> (Seq<char>, u64) {
    (r.id@, r.version)
}

/// The style that a renderer thread has loaded.
#[derive(Debug)]
pub struct ActorState {
    pub loaded: Option<StyleRevision>,
}

impl ActorState {
    /// The loaded style.
    pub open spec fn style(&self) -> Option<(Seq<char>, u64)> {
        match self.loaded {
            Some(r) => Some(revision_view(r)),
            None => None,
        }
    }

    pub fn new() -> (r: ActorState)
        ensures
            r.style() is None,
    {
        ActorState { loaded: None }
    }

    /// Notes how loading a style went. The renderer must be reset if it failed,
    /// which is returned.
    pub fn on_loaded(&mut self, revision: StyleRevision, ok: bool) -> (reset: bool)
        ensures
            reset == !ok,
            final(self).style() == style_after(
                old(self).style(),
                ActorEvent::Loaded { revision: revision_view(revision), ok },
            ),
    {
        if ok {
            self.loaded = Some(revision);
            false
        } else {
            self.loaded = None;
            true
        }
    }

    /// Whether a task of this style may be rendered, or why not.
    pub fn check_ready(&self, style: &StyleRevision) -> (r: Result<(), RendererError>)
        ensures
            match r {
                Ok(()) => self.style() == Some(revision_view(*style)),
                Err(e) => self.style() != Some(revision_view(*style)) && e == (
                RendererError::StyleNotReady { style_id: style.id, version: style.version }),
            },
    {
        if let Some(loaded) = &self.loaded {
            if same_revision(loaded, style) {
                return Ok(());
            }
        }
        Err(RendererError::StyleNotReady { style_id: style.id.clone(), version: style.version })
    }

    /// Notes how a render went. The loaded style is forgotten after a panic and
    /// after an error that the renderer says invalidates it; whether it must be
    /// reset is returned.
    pub fn on_rendered(&mut self, error: Option<&RendererError>, invalidates: bool) -> (reset: bool)
        ensures
            reset == match error {
                Some(e) => is_panic(*e) || invalidates,
                None => false,
            },
            final(self).style() == style_after(
                old(self).style(),
                ActorEvent::Rendered { reset },
            ),
    {
        match error {
            Some(e) => {
                if renderer_error_is_actor_panic(e) || invalidates {
                    self.loaded = None;
                    true
                } else {
                    false
                }
            },
            None => false,
        }
    }
}

/// The error of a failed render, with this text.
pub open spec fn failed_with(e: RendererError, text: Seq<char>) -> bool {
    e matches RendererError::RenderFailed(message) && message@ == text
}

/// The error of a renderer that panicked: the text says so.
pub open spec fn is_panic(e: RendererError) -> bool {
    e matches RendererError::RenderFailed(message) && begins_with(
        message@,
        "renderer actor panicked during "@,
    )
}

/// Whether an error reports a panic of the renderer.
pub fn renderer_error_is_actor_panic(err: &RendererError) -> (r: bool)
    ensures
        r == is_panic(*err),
{
    match err {
        RendererError::RenderFailed(message) => {
            let chars = chars_of(message.as_str());
            after_prefix(&chars, "renderer actor panicked during ").is_some()
        },
        _ => false,
    }
}

/// The error that stands for a panic of the renderer during an operation.
pub fn panic_error(operation: &str, message: &str) -> (r: RendererError)
    ensures
        failed_with(
            r,
            "renderer actor panicked during "@ + operation@ + ": "@ + message@,
        ),
        is_panic(r),
{
    let mut text = String::new();
    text.push_str("renderer actor panicked during ");
    text.push_str(operation);
    text.push_str(": ");
    text.push_str(message);
    proof {
        let head = "renderer actor panicked during "@;
        assert(text@ =~= head + operation@ + ": "@ + message@);
        assert(text@.take(head.len() as int) =~= head);
    }
    RendererError::RenderFailed(text)
}

/// What a panic left behind to say.
#[derive(Debug)]
pub enum PanicPayload {
    Text(String),
    Other,
}

/// The message of a panic.
pub fn panic_payload_message(payload: &PanicPayload) -> (r: String)
    ensures
        match payload {
            PanicPayload::Text(text) => r@ == text@,
            PanicPayload::Other => r@ == "non-string panic payload"@,
        },
{
    match payload {
        PanicPayload::Text(text) => text.clone(),
        PanicPayload::Other => "non-string panic payload".to_owned(),
    }
}

/// What happens to a renderer: a style is loaded, or fails to load, or a render
/// ends and the renderer is reset or not.
pub enum ActorEvent {
    Loaded { revision: (Seq<char>, u64), ok: bool },
    Rendered { reset: bool },
}

/// The loaded style after an event.
pub open spec fn style_after(style: Option<(Seq<char>, u64)>, event: ActorEvent) -> Option<
    (Seq<char>, u64),
> {
    match event {
        ActorEvent::Loaded { revision, ok } => if ok {
            Some(revision)
        } else {
            None
        },
        ActorEvent::Rendered { reset } => if reset {
            None
        } else {
            style
        },
    }
}

/// The loaded style after a new renderer has lived through the events.
pub open spec fn style_after_all(events: Seq<ActorEvent>) -> Option<(Seq<char>, u64)>
    decreases events.len(),
{
    if events.len() == 0 {
        None
    } else {
        style_after(style_after_all(events.drop_last()), events.last())
    }
}

/// The renderer loaded the style at `i`, and nothing has unset it since.
pub open spec fn loaded_at(events: Seq<ActorEvent>, i: int, style: (Seq<char>, u64)) -> bool {
    &&& 0 <= i < events.len()
    &&& events[i] == (ActorEvent::Loaded { revision: style, ok: true })
    &&& forall|j: int|
        i < j < events.len() ==> #[trigger] events[j] == (ActorEvent::Rendered { reset: false })
}

/// A task is rendered only with a style whose load succeeded, with no failed
/// load, other load, panic or reset since.
pub proof fn law_only_a_loaded_style_renders(events: Seq<ActorEvent>, style: (Seq<char>, u64))
    ensures
        style_after_all(events) == Some(style) <==> exists|i: int| loaded_at(events, i, style),
    decreases events.len(),
{
    if events.len() > 0 {
        let head = events.drop_last();
        law_only_a_loaded_style_renders(head, style);
        if style_after_all(events) == Some(style) {
            if events.last() is Loaded {
                assert(loaded_at(events, events.len() - 1, style));
            } else {
                let i = choose|i: int| loaded_at(head, i, style);
                assert(head[i] == events[i]);
                assert forall|j: int| i < j < events.len() implies #[trigger] events[j] == (
                ActorEvent::Rendered { reset: false }) by {
                    if j < head.len() {
                        assert(head[j] == events[j]);
                    }
                }
                assert(loaded_at(events, i, style));
            }
        }
        if exists|i: int| loaded_at(events, i, style) {
            let i = choose|i: int| loaded_at(events, i, style);
            if i < events.len() - 1 {
                assert(events[events.len() - 1] == (ActorEvent::Rendered { reset: false }));
                assert(head[i] == events[i]);
                assert forall|j: int| i < j < head.len() implies #[trigger] head[j] == (
                ActorEvent::Rendered { reset: false }) by {
                    assert(head[j] == events[j]);
                }
                assert(loaded_at(head, i, style));
            }
        }
    }
}

/// What a renderer thread is doing.
#[derive(Clone, Copy, Debug, PartialEq, Eq, Structural)]
pub enum ThreadStatus {
    Running,
    Orphaned,
    Finished,
}

/// What is left of a renderer thread from its owner's side.
#[derive(Clone, Copy, Debug, PartialEq, Eq, Structural)]
pub enum ThreadHandle {
    Gone,
    Ended,
    Live,
}

/// What the owner does with a thread that it wants to be rid of.
#[derive(Clone, Copy, Debug, PartialEq, Eq, Structural)]
pub enum Abandon {
    /// There is nothing to do.
    Nothing,
    /// Join the thread, which has ended.
    Join,
    /// Let the thread run on by itself.
    Detach,
    /// The thread has to stay.
    Refused,
}

/// What becomes of a thread, given whether the budget allows one more.
pub open spec fn abandonment(
    handle: ThreadHandle,
    budget: bool,
    status: ThreadStatus,
) -> Abandon {
    match handle {
        ThreadHandle::Gone => Abandon::Nothing,
        ThreadHandle::Ended => Abandon::Join,
        ThreadHandle::Live => if !budget {
            Abandon::Refused
        } else {
            match status {
                ThreadStatus::Running => Abandon::Detach,
                ThreadStatus::Finished => Abandon::Join,
                ThreadStatus::Orphaned => Abandon::Refused,
            }
        },
    }
}

/// Detaches a stuck thread within the budget. A thread that turns out to have
/// ended, or to be detached already, gives its share of the budget back.
pub fn try_abandon(
    supervisor: &mut RendererActorSupervisor,
    worker_id: usize,
    handle: ThreadHandle,
    status: &mut ThreadStatus,
) -> (r: Abandon)
    requires
        old(supervisor).wf(),
    ensures
        final(supervisor).wf(),
        final(supervisor).same_but_orphans(old(supervisor)),
        r == abandonment(
            handle,
            !old(supervisor).orphans().contains_key(worker_id) && total(old(supervisor).orphans())
                < old(supervisor).slots(),
            *old(status),
        ),
        final(supervisor).orphans() == if r == Abandon::Detach {
            old(supervisor).orphans().insert(worker_id, 1)
        } else {
            old(supervisor).orphans()
        },
        *final(status) == if r == Abandon::Detach {
            ThreadStatus::Orphaned
        } else {
            *old(status)
        },
{
    match handle {
        ThreadHandle::Gone => {
            return Abandon::Nothing;
        },
        ThreadHandle::Ended => {
            return Abandon::Join;
        },
        ThreadHandle::Live => {},
    }
    let ghost before = supervisor.orphans();
    if !supervisor.try_reserve_orphan(worker_id) {
        return Abandon::Refused;
    }
    match *status {
        ThreadStatus::Running => {
            *status = ThreadStatus::Orphaned;
            Abandon::Detach
        },
        ThreadStatus::Finished => {
            supervisor.release_orphan(worker_id);
            assert(before.insert(worker_id, 1).remove(worker_id) =~= before);
            Abandon::Join
        },
        ThreadStatus::Orphaned => {
            supervisor.release_orphan(worker_id);
            assert(before.insert(worker_id, 1).remove(worker_id) =~= before);
            Abandon::Refused
        },
    }
}

/// Whether the owner is rid of the thread.
pub fn abandoned(action: Abandon) -> (r: bool)
    ensures
        r == (action != Abandon::Refused),
{
    match action {
        Abandon::Refused => false,
        _ => true,
    }
}

/// The owner goes away while the thread may still run: a running one is left
/// behind whatever the budget says.
pub fn on_owner_gone(
    supervisor: &mut RendererActorSupervisor,
    worker_id: usize,
    status: &mut ThreadStatus,
)
    requires
        old(supervisor).wf(),
        total(old(supervisor).orphans()) < usize::MAX,
    ensures
        final(supervisor).wf(),
        final(supervisor).same_but_orphans(old(supervisor)),
        *old(status) == ThreadStatus::Running ==> *final(status) == ThreadStatus::Orphaned
            && final(supervisor).orphans() == old(supervisor).orphans().insert(
            worker_id,
            if old(supervisor).orphans().contains_key(worker_id) {
                (old(supervisor).orphans()[worker_id] + 1) as usize
            } else {
                1
            },
        ),
        *old(status) != ThreadStatus::Running ==> *final(status) == *old(status) && final(supervisor).orphans() == old(supervisor).orphans(),
{
    match *status {
        ThreadStatus::Running => {
            *status = ThreadStatus::Orphaned;
            supervisor.reserve_orphan_unchecked(worker_id);
        },
        _ => {},
    }
}

/// The thread ends: one that was left behind gives its share of the budget
/// back.
pub fn on_thread_exit(
    supervisor: &mut RendererActorSupervisor,
    worker_id: usize,
    status: &mut ThreadStatus,
)
    requires
        old(supervisor).wf(),
    ensures
        final(supervisor).wf(),
        final(supervisor).same_but_orphans(old(supervisor)),
        *final(status) == ThreadStatus::Finished,
        *old(status) != ThreadStatus::Orphaned ==> final(supervisor).orphans() == old(supervisor).orphans(),
        *old(status) == ThreadStatus::Orphaned && old(supervisor).orphans().contains_key(worker_id)
            ==> total(final(supervisor).orphans()) == total(old(supervisor).orphans()) - 1,
{
    let ghost m = supervisor.orphans();
    proof {
        supervisor.lemma_wf_orphans(worker_id);
    }
    match *status {
        ThreadStatus::Orphaned => {
            supervisor.release_orphan(worker_id);
            proof {
                supervisor.lemma_release(m, worker_id);
            }
        },
        _ => {},
    }
    *status = ThreadStatus::Finished;
}

/// What a renderer was built for.
#[derive(Clone, Copy, Debug, PartialEq, Eq, Structural)]
pub struct RendererKey {
    pub render_mode: RenderMode,
    /// The pixel ratio, by the bits of its single-precision number.
    pub pixel_ratio_bits: u32,
}

/// The bits of 1 in single precision.
pub const ONE_BITS: u32 = 0x3f80_0000;

/// The bits of 2 in single precision.
pub const TWO_BITS: u32 = 0x4000_0000;

impl RendererKey {
    pub open spec fn of(render_mode: RenderMode, scale: Scale) -> RendererKey {
        RendererKey {
            render_mode,
            pixel_ratio_bits: match scale {
                Scale::X1 => ONE_BITS,
                Scale::X2 => TWO_BITS,
            },
        }
    }

    pub fn new(render_mode: RenderMode, pixel_ratio: Scale) -> (r: RendererKey)
        ensures
            r == RendererKey::of(render_mode, pixel_ratio),
    {
        let pixel_ratio_bits: u32 = match pixel_ratio {
            Scale::X1 => ONE_BITS,
            Scale::X2 => TWO_BITS,
        };
        RendererKey { render_mode, pixel_ratio_bits }
    }
}

/// The size of an image in pixels.
#[derive(Clone, Copy, Debug, PartialEq, Eq, Structural)]
pub struct RenderSize {
    pub width: u32,
    pub height: u32,
}

/// Refuses an image without extent.
pub fn render_size(width: u16, height: u16) -> (r: Result<RenderSize, RendererError>)
    ensures
        match r {
            Ok(size) => width != 0 && height != 0 && size == (RenderSize {
                width: width as u32,
                height: height as u32,
            }),
            Err(e) => (width == 0 || height == 0) && failed_with(
                e,
                "render size must be non-zero"@,
            ),
        },
{
    if width == 0 || height == 0 {
        Err(RendererError::RenderFailed("render size must be non-zero".to_owned()))
    } else {
        Ok(RenderSize { width: width as u32, height: height as u32 })
    }
}

/// A renderer that was built, and the style in it.
#[derive(Debug)]
pub struct ActiveRenderer {
    pub key: RendererKey,
    pub loaded_style: Option<StyleRevision>,
}

/// What has to happen before a renderer can render a style.
#[derive(Clone, Copy, Debug, PartialEq, Eq, Structural)]
pub enum Preparation {
    /// Build a renderer and load the style.
    Build,
    /// Load the style into the renderer that is there.
    LoadStyle,
    /// The renderer is ready.
    Ready,
}

/// What a renderer of this key and style needs.
pub open spec fn preparation_of(
    active: Option<ActiveRenderer>,
    key: RendererKey,
    style: (Seq<char>, u64),
) -> Preparation {
    match active {
        None => Preparation::Build,
        Some(a) => if a.key != key {
            Preparation::Build
        } else {
            match a.loaded_style {
                Some(r) => if revision_view(r) == style {
                    Preparation::Ready
                } else {
                    Preparation::LoadStyle
                },
                None => Preparation::LoadStyle,
            }
        },
    }
}

/// Where the camera of an image comes from.
#[derive(Clone, Copy, Debug, PartialEq, Eq, Structural)]
pub enum Camera {
    Tile { z: u8, x: u32, y: u32 },
    Center { lon: u64, lat: u64, zoom: u64, bearing: u32, pitch: u32 },
    Bounds { min_lon: u64, min_lat: u64, max_lon: u64, max_lat: u64, padding: Padding },
    /// Fit the overlays, inside this padding.
    FitOverlays { padding: Padding },
}

/// How a task is rendered.
#[derive(Clone, Copy, Debug, PartialEq, Eq, Structural)]
pub struct RenderPlan {
    pub key: RendererKey,
    pub size: RenderSize,
    pub preparation: Preparation,
    pub camera: Camera,
    pub output_format: ImageFormat,
}

/// The extent of a request.
pub open spec fn extent(request: RenderRequest) -> (u16, u16) {
    match request {
        RenderRequest::Tile { tile_size, .. } => (tile_size, tile_size),
        RenderRequest::StaticImage { width, height, .. } => (width, height),
    }
}

/// The camera of a request: padding counts only where the camera is fitted.
pub open spec fn camera_of(request: RenderRequest) -> Camera {
    match request {
        RenderRequest::Tile { z, x, y, .. } => Camera::Tile { z, x, y },
        RenderRequest::StaticImage { positioning, padding, .. } => match positioning {
            Positioning::Center { lon, lat, zoom, bearing, pitch } => Camera::Center {
                lon,
                lat,
                zoom,
                bearing,
                pitch,
            },
            Positioning::Bbox { min_lon, min_lat, max_lon, max_lat } => Camera::Bounds {
                min_lon,
                min_lat,
                max_lon,
                max_lat,
                padding,
            },
            Positioning::Auto => Camera::FitOverlays { padding },
        },
    }
}

/// Decides how a task is rendered by the renderer that is there and the style
/// that was loaded last.
pub fn plan_render(
    task: &InternalTask,
    style: &Option<StyleRevision>,
    active: &Option<ActiveRenderer>,
) -> (r: Result<RenderPlan, RendererError>)
    ensures
        match r {
            Ok(plan) => {
                let (width, height) = extent(task.request);
                &&& width != 0 && height != 0
                &&& style is Some
                &&& plan.preparation == preparation_of(
                    *active,
                    plan.key,
                    revision_view(style->0),
                )
                &&& plan.key == RendererKey::of(task.request.mode(), task.pixel_ratio)
                &&& plan.size == (RenderSize { width: width as u32, height: height as u32 })
                &&& plan.camera == camera_of(task.request)
                &&& plan.output_format == task.output_format
            },
            Err(e) => {
                let (width, height) = extent(task.request);
                &&& width == 0 || height == 0 || style is None
                &&& failed_with(
                    e,
                    if width == 0 || height == 0 {
                        "render size must be non-zero"@
                    } else {
                        "style has not been loaded in renderer backend"@
                    },
                )
            },
        },
{
    let key = RendererKey::new(task.request.render_mode(), task.pixel_ratio);
    let (width, height): (u16, u16) = match &task.request {
        RenderRequest::Tile { tile_size, .. } => (*tile_size, *tile_size),
        RenderRequest::StaticImage { width, height, .. } => (*width, *height),
    };
    let size = match render_size(width, height) {
        Ok(size) => size,
        Err(e) => {
            return Err(e);
        },
    };
    let revision = match style {
        Some(revision) => revision,
        None => {
            return Err(
                RendererError::RenderFailed(
                    "style has not been loaded in renderer backend".to_owned(),
                ),
            );
        },
    };
    let preparation = match active {
        None => Preparation::Build,
        Some(a) => {
            if a.key != key {
                Preparation::Build
            } else {
                match &a.loaded_style {
                    Some(loaded) => {
                        if same_revision(loaded, revision) {
                            Preparation::Ready
                        } else {
                            Preparation::LoadStyle
                        }
                    },
                    None => Preparation::LoadStyle,
                }
            }
        },
    };
    let camera = match &task.request {
        RenderRequest::Tile { z, x, y, .. } => Camera::Tile { z: *z, x: *x, y: *y },
        RenderRequest::StaticImage { positioning, padding, .. } => match *positioning {
            Positioning::Center { lon, lat, zoom, bearing, pitch } => Camera::Center {
                lon,
                lat,
                zoom,
                bearing,
                pitch,
            },
            Positioning::Bbox { min_lon, min_lat, max_lon, max_lat } => Camera::Bounds {
                min_lon,
                min_lat,
                max_lon,
                max_lat,
                padding: *padding,
            },
            Positioning::Auto => Camera::FitOverlays { padding: *padding },
        },
    };
    Ok(RenderPlan { key, size, preparation, camera, output_format: task.output_format })
}

/// A renderer of this key was built, and has the style loaded.
pub open spec fn holds_style(
    active: Option<ActiveRenderer>,
    key: RendererKey,
    style: (Seq<char>, u64),
) -> bool {
    match active {
        Some(renderer) => renderer.key == key && match renderer.loaded_style {
            Some(loaded) => revision_view(loaded) == style,
            None => false,
        },
        None => false,
    }
}

/// What a thread knows of its native renderer.
#[derive(Debug)]
pub struct NativeBackend {
    /// The style that tasks are rendered in.
    pub style: Option<StyleRevision>,
    pub active: Option<ActiveRenderer>,
}

fn revision_copy(revision: &StyleRevision) -> (r: StyleRevision)
    ensures
        revision_view(r) == revision_view(*revision),
{
    StyleRevision { id: revision.id.clone(), version: revision.version }
}

impl NativeBackend {
    /// What a renderer of this key needs before it can render in the style.
    pub open spec fn needs(&self, key: RendererKey) -> Option<Preparation> {
        match self.style {
            Some(style) => Some(preparation_of(self.active, key, revision_view(style))),
            None => None,
        }
    }

    pub fn new() -> (r: NativeBackend)
        ensures
            r.style is None,
            r.active is None,
    {
        NativeBackend { style: None, active: None }
    }

    /// Tasks are rendered in another style from now on.
    pub fn set_style(&mut self, revision: StyleRevision)
        ensures
            final(self).style == Some(revision),
            final(self).active == old(self).active,
    {
        self.style = Some(revision);
    }

    /// Notes how the preparation that a plan asks for went: a renderer that could
    /// not be built, or did not take the style, leaves things as they were.
    pub fn on_prepared(&mut self, plan: &RenderPlan, ok: bool)
        ensures
            final(self).style == old(self).style,
            old(self).style is None || !ok || plan.preparation == Preparation::Ready
                ==> final(self).active == old(self).active,
            old(self).style matches Some(style) ==> ok && plan.preparation == Preparation::Build
                ==> holds_style(final(self).active, plan.key, revision_view(style)),
            old(self).style matches Some(style) ==> ok && plan.preparation == Preparation::LoadStyle
                ==> match old(self).active {
                Some(before) => holds_style(final(self).active, before.key, revision_view(style)),
                None => final(self).active is None,
            },
    {
        if !ok {
            return ;
        }
        let style = match &self.style {
            Some(style) => revision_copy(style),
            None => {
                return ;
            },
        };
        match plan.preparation {
            Preparation::Build => {
                self.active = Some(ActiveRenderer { key: plan.key, loaded_style: Some(style) });
            },
            Preparation::LoadStyle => {
                if let Some(active) = &self.active {
                    let key = active.key;
                    self.active = Some(ActiveRenderer { key, loaded_style: Some(style) });
                }
            },
            Preparation::Ready => {},
        }
    }

    /// Forgets the style, also that of the renderer.
    pub fn reset(&mut self)
        ensures
            final(self).style is None,
            final(self).active is Some == (old(self).active is Some),
            final(self).active matches Some(active) ==> active.key == old(self).active->0.key
                && active.loaded_style is None,
    {
        self.style = None;
        if let Some(active) = &self.active {
            let key = active.key;
            self.active = Some(ActiveRenderer { key, loaded_style: None });
        }
    }
}

/// A renderer is ready exactly when it was built for the key and has the style
/// loaded: one that was prepared is ready, and one that was reset is not.
pub proof fn law_ready_renderers_hold_the_style(
    active: Option<ActiveRenderer>,
    key: RendererKey,
    style: (Seq<char>, u64),
)
    ensures
        (preparation_of(active, key, style) == Preparation::Ready) == holds_style(
            active,
            key,
            style,
        ),
        (preparation_of(active, key, style) == Preparation::Build) == (active is None
            || active->0.key != key),
{
}

/// Whether an error of the native renderer makes the loaded style doubtful: all
/// do but a failed render.
pub fn error_invalidates_loaded_state(err: &RendererError) -> (r: bool)
    ensures
        r == !(err is RenderFailed),
{
    match err {
        RendererError::RenderFailed(_) => false,
        _ => true,
    }
}

/// What came of waiting for a renderer thread.
#[derive(Debug)]
pub enum Waited<T> {
    Replied(Result<T, RendererError>),
    /// The thread went away.
    Dropped,
    /// The deadline passed.
    TimedOut,
}

/// The result of a command to a renderer thread.
pub fn actor_reply<T>(waited: Waited<T>) -> (r: Result<T, RendererError>)
    ensures
        match waited {
            Waited::Replied(result) => r == result,
            Waited::Dropped => r == Err::<T, RendererError>(RendererError::ActorDead),
            Waited::TimedOut => r == Err::<T, RendererError>(RendererError::Timeout),
        },
{
    match waited {
        Waited::Replied(result) => result,
        Waited::Dropped => Err(RendererError::ActorDead),
        Waited::TimedOut => Err(RendererError::Timeout),
    }
}

/// The camera of a static image looks where the request says: a center is the
/// request's own center, point by point, and so is each bound of a box.
pub proof fn law_the_camera_is_where_the_request_points(
    request: RenderRequest,
    positioning: Positioning,
    padding: Padding,
)
    requires
        request is StaticImage,
        request->positioning == positioning,
        request->padding == padding,
    ensures
        positioning is Center ==> {
            let camera = camera_of(request);
            &&& camera is Center
            &&& camera->lon == positioning->lon
            &&& camera->lat == positioning->lat
            &&& camera->zoom == positioning->zoom
            &&& camera->bearing == positioning->bearing
            &&& camera->pitch == positioning->pitch
        },
        positioning is Bbox ==> {
            let camera = camera_of(request);
            &&& camera is Bounds
            &&& camera->min_lon == positioning->min_lon
            &&& camera->min_lat == positioning->min_lat
            &&& camera->max_lon == positioning->max_lon
            &&& camera->max_lat == positioning->max_lat
            &&& camera->Bounds_padding == padding
        },
        positioning is Auto ==> {
            &&& camera_of(request) is FitOverlays
            &&& camera_of(request)->FitOverlays_padding == padding
        },
{
}

/// The camera of a tile shows that tile.
pub proof fn law_the_camera_of_a_tile_shows_the_tile(request: RenderRequest)
    requires
        request is Tile,
    ensures
        camera_of(request) is Tile,
        camera_of(request)->z == request->z,
        camera_of(request)->x == request->x,
        camera_of(request)->y == request->y,
{
}

/// Requests that show different parts of the map have different cameras: of two
/// requests with the same camera, both are tiles and name the same tile, or both
/// are static and point at the same place.
pub proof fn law_cameras_tell_requests_apart(a: RenderRequest, b: RenderRequest)
    requires
        camera_of(a) == camera_of(b),
    ensures
        a is Tile <==> b is Tile,
        a is Tile ==> a->z == b->z && a->x == b->x && a->y == b->y,
        a is StaticImage ==> a->positioning == b->positioning,
        a is StaticImage && !(a->positioning is Center) ==> a->padding == b->padding,
{
}

/// An image is as large as its request says: a tile is as high as it is wide.
pub proof fn law_images_have_the_extent_of_their_request(request: RenderRequest)
    ensures
        request is Tile ==> extent(request).0 == request->tile_size && extent(request).1
            == request->tile_size,
        request is StaticImage ==> extent(request).0 == request->width && extent(request).1
            == request->height,
{
}

/// A renderer is built for one mode and one pixel ratio. The bits of the ratio are
/// those of a single-precision number: an exponent of zero for one pixel, and of
/// one for two.
pub proof fn law_renderer_keys_hold_mode_and_ratio(a: RenderMode, b: RenderMode, s: Scale, t: Scale)
    ensures
        RendererKey::of(a, s).render_mode == a,
        RendererKey::of(a, Scale::X1).pixel_ratio_bits == 127 * 0x80_0000,
        RendererKey::of(a, Scale::X2).pixel_ratio_bits == 128 * 0x80_0000,
        RendererKey::of(a, s) == RendererKey::of(b, t) <==> a == b && s == t,
{
}

/// A thread runs on by itself only if it is alive and running and the budget
/// allows it; it is kept only if it is alive and there is no budget, or it was
/// detached before; one that has ended is joined.
pub proof fn law_threads_are_detached_within_the_budget(
    handle: ThreadHandle,
    budget: bool,
    status: ThreadStatus,
)
    ensures
        abandonment(handle, budget, status) == Abandon::Detach <==> handle == ThreadHandle::Live
            && budget && status == ThreadStatus::Running,
        abandonment(handle, budget, status) == Abandon::Refused <==> handle == ThreadHandle::Live
            && (!budget || status == ThreadStatus::Orphaned),
        abandonment(handle, budget, status) == Abandon::Nothing <==> handle == ThreadHandle::Gone,
        handle == ThreadHandle::Ended ==> abandonment(handle, budget, status) == Abandon::Join,
{
}

/// A panic is told by how its message begins, and a failure by its whole message.
pub proof fn law_panics_are_told_by_their_message(message: String, tail: Seq<char>)
    ensures
        message@ == "renderer actor panicked during "@ + tail ==> is_panic(
            RendererError::RenderFailed(message),
        ),
        !("renderer actor panicked during "@.is_prefix_of(message@)) ==> !is_panic(
            RendererError::RenderFailed(message),
        ),
        !is_panic(RendererError::Timeout),
        !is_panic(RendererError::ActorDead),
        failed_with(RendererError::RenderFailed(message), tail) <==> message@ == tail,
        !failed_with(RendererError::Timeout, tail),
{
    let mark = "renderer actor panicked during "@;
    if message@ == mark + tail {
        assert(message@.take(mark.len() as int) =~= mark);
    }
    if begins_with(message@, mark) {
        assert(message@.take(mark.len() as int) == mark);
        assert(mark.is_prefix_of(message@)) by {
            assert(message@.subrange(0, mark.len() as int) =~= message@.take(mark.len() as int));
        }
    }
}

} // verus!
