//! Renderers: what they need, how they are supervised, and where their
//! resources come from.

pub mod actor;
pub mod file_source;
pub mod loads;
pub mod negative;
pub mod pin;
pub mod profile;
pub mod slot;
pub mod supervisor;

use vstd::prelude::*;
use crate::types::{
    AddLayerSource, InternalTask, RenderOutput, RendererError, StyleRevision,
};

verus! {

/// A style that is ready to be loaded by a renderer.
#[derive(Clone, Debug)]
pub struct PreparedProfile {
    pub revision: StyleRevision,
    pub style_json: String,
    /// The source that the request adds, with its tiles resolved.
    pub addlayer_source: Option<AddLayerSource>,
}

/// Why a style cannot be had.
#[derive(Clone, Debug, PartialEq, Eq)]
pub enum StyleAvailabilityError {
    NotFound(RendererError),
    Unavailable(RendererError),
}

/// Gets what a task needs before it enters a renderer slot.
pub trait ProfilePreparer {
    /// Fetches and checks the style of a task, and the source that it adds.
    /// Preparers that fetch nothing have nothing to hand on.
    fn prepare_profile(&self, task: &InternalTask) -> (r: Result<
        Option<PreparedProfile>,
        RendererError,
    >)
        default_ensures
            r == Ok::<Option<PreparedProfile>, RendererError>(None),
    {
        Ok(None)
    }

    /// Checks that the provider has a style. Preparers that fetch nothing have
    /// nothing to check.
    fn ensure_style_available(&self, revision: &StyleRevision) -> (r: Result<
        (),
        StyleAvailabilityError,
    >)
        default_ensures
            r is Ok,
    {
        Ok(())
    }
}

/// Prepares nothing.
#[derive(Clone, Copy, Debug, Default)]
pub struct NoopProfilePreparer;

impl ProfilePreparer for NoopProfilePreparer {

}

/// What a slot needs of a renderer.
pub trait Renderer {
    /// Sets the renderer up for the style, mode and scale of a task.
    fn setup_profile(&mut self, task: &InternalTask, prepared: Option<PreparedProfile>) -> (r:
        Result<(), RendererError>);

    /// Loads the source with the given hash.
    fn ensure_source(&mut self, hash: u64) -> (r: Result<(), RendererError>);

    fn render(&mut self, task: &InternalTask) -> (r: Result<RenderOutput, RendererError>);

    /// Stops using the native renderer once its command has returned.
    fn retire_after_current(&mut self);
}

} // verus!
