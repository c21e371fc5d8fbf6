//! A renderer slot: when its thread is replaced, and what the supervisor is told.

use vstd::prelude::*;
use crate::renderer::actor::{same_revision, ResolvedStyle};
use crate::renderer::supervisor::{slots_after, RendererActorSupervisor};
use crate::renderer::PreparedProfile;
use crate::types::{InternalTask, RendererError};

verus! {

/// What has to happen before a slot takes work.
#[derive(Clone, Copy, Debug, PartialEq, Eq, Structural)]
pub enum SlotStep {
    /// The thread can be used.
    Ready,
    /// The thread is to be left behind and replaced.
    ReplaceRetiring,
    /// The thread has ended and is to be replaced.
    ReplaceFinished,
}

/// A slot: whether its thread is to be retired, and whether it counts as
/// available.
#[derive(Clone, Copy, Debug, PartialEq, Eq, Structural)]
pub struct RendererSlot {
    pub retiring: bool,
    pub slot_available: bool,
}

/// The replacements after one that had no budget. It is counted when the slot is
/// lost, not when it is tried again.
pub open spec fn exhausted(counts: (u64, u64, u64), available: bool) -> (u64, u64, u64) {
    if available {
        (counts.0, counts.1.wrapping_add(1), counts.2)
    } else {
        counts
    }
}

impl RendererSlot {
    /// A slot whose thread has just started.
    pub fn new() -> (r: RendererSlot)
        ensures
            r == (RendererSlot { retiring: false, slot_available: true }),
    {
        RendererSlot { retiring: false, slot_available: true }
    }

    /// What has to happen before the slot takes work.
    pub open spec fn next(&self, thread_alive: bool) -> SlotStep {
        if self.retiring {
            SlotStep::ReplaceRetiring
        } else if !thread_alive {
            SlotStep::ReplaceFinished
        } else {
            SlotStep::Ready
        }
    }

    /// Whether the thread of the slot can be used.
    pub fn is_alive(&self, thread_alive: bool) -> (r: bool)
        ensures
            r == (self.next(thread_alive) == SlotStep::Ready),
    {
        !self.retiring && thread_alive
    }

    /// Decides what has to happen before the slot takes work.
    pub fn step(&self, thread_alive: bool) -> (r: SlotStep)
        ensures
            r == self.next(thread_alive),
    {
        if self.retiring {
            SlotStep::ReplaceRetiring
        } else if !thread_alive {
            SlotStep::ReplaceFinished
        } else {
            SlotStep::Ready
        }
    }

    /// The thread is to be replaced once its command returns.
    pub fn retire_after_current(&mut self)
        ensures
            *final(self) == (RendererSlot { retiring: true, ..*old(self) }),
    {
        self.retiring = true;
    }

    /// Notes whether the thread could be left behind. Without budget for it the
    /// slot is lost, and the loss is counted once.
    pub fn on_abandon(&mut self, supervisor: &mut RendererActorSupervisor, abandoned: bool) -> (r:
        Result<(), RendererError>)
        requires
            old(supervisor).wf(),
        ensures
            final(supervisor).wf(),
            abandoned ==> r is Ok && *final(self) == *old(self) && *final(supervisor) == *old(
                supervisor,
            ),
            !abandoned ==> r == Err::<(), RendererError>(RendererError::ActorDead),
            !abandoned ==> *final(self) == (RendererSlot { slot_available: false, ..*old(self) }),
            !abandoned ==> final(supervisor).available() == slots_after(
                old(supervisor).available(),
                old(self).slot_available,
                false,
            ),
            !abandoned ==> final(supervisor).replacements() == exhausted(
                old(supervisor).replacements(),
                old(self).slot_available,
            ),
            final(supervisor).slots() == old(supervisor).slots(),
            final(supervisor).orphans() == old(supervisor).orphans(),
            final(supervisor).provider_fails() == old(supervisor).provider_fails(),
    {
        if abandoned {
            return Ok(());
        }
        if self.slot_available {
            supervisor.record_replacement_exhausted();
        }
        supervisor.set_slot_available(&mut self.slot_available, false);
        Err(RendererError::ActorDead)
    }

    /// Notes whether a new thread could be started.
    pub fn on_replacement(
        &mut self,
        supervisor: &mut RendererActorSupervisor,
        started: Result<(), RendererError>,
    ) -> (r: Result<(), RendererError>)
        requires
            old(supervisor).wf(),
        ensures
            final(supervisor).wf(),
            r == started,
            *final(self) == match started {
                Ok(()) => (RendererSlot { retiring: false, slot_available: true }),
                Err(_) => (RendererSlot { slot_available: false, ..*old(self) }),
            },
            final(supervisor).available() == slots_after(
                old(supervisor).available(),
                old(self).slot_available,
                started is Ok,
            ),
            final(supervisor).replacements() == match started {
                Ok(()) => (
                    old(supervisor).replacements().0.wrapping_add(1),
                    old(supervisor).replacements().1,
                    old(supervisor).replacements().2,
                ),
                Err(_) => (
                    old(supervisor).replacements().0,
                    old(supervisor).replacements().1,
                    old(supervisor).replacements().2.wrapping_add(1),
                ),
            },
            final(supervisor).slots() == old(supervisor).slots(),
            final(supervisor).orphans() == old(supervisor).orphans(),
            final(supervisor).provider_fails() == old(supervisor).provider_fails(),
    {
        if started.is_ok() {
            self.retiring = false;
            supervisor.set_slot_available(&mut self.slot_available, true);
            supervisor.record_replacement_succeeded();
        } else {
            supervisor.record_replacement_failed();
            supervisor.set_slot_available(&mut self.slot_available, false);
        }
        started
    }
}

/// A slot that has no budget is counted as exhausted once, however often it is
/// tried.
pub proof fn law_exhaustion_is_counted_once(counts: (u64, u64, u64), available: bool)
    ensures
        exhausted(exhausted(counts, available), false) == exhausted(counts, available),
{
}

/// The prepared style of a task, if it was prepared for the task's revision.
pub fn prepared_style(task: &InternalTask, prepared: Option<PreparedProfile>) -> (r: Result<
    ResolvedStyle,
    RendererError,
>)
    ensures
        match prepared {
            Some(p) => if p.revision.id@ == task.style.id@ && p.revision.version
                == task.style.version {
                r is Ok && r->Ok_0.revision == p.revision && r->Ok_0.style_json == p.style_json
            } else {
                r is Err && stale(*task, r->Err_0)
            },
            None => r is Err && stale(*task, r->Err_0),
        },
{
    if let Some(profile) = prepared {
        if same_revision(&profile.revision, &task.style) {
            return Ok(
                ResolvedStyle { revision: profile.revision, style_json: profile.style_json },
            );
        }
    }
    Err(
        RendererError::StyleLoadFailed {
            style_id: task.style.id.clone(),
            source: "prepared style JSON is missing or stale".to_owned(),
        },
    )
}

/// The error of a task whose style was not prepared.
pub open spec fn stale(task: InternalTask, e: RendererError) -> bool {
    match e {
        RendererError::StyleLoadFailed { style_id, source } => style_id@ == task.style.id@
            && source@ == "prepared style JSON is missing or stale"@,
        _ => false,
    }
}

/// A slot is ready just if its thread lives and is not to be retired. One that is to be
/// retired is replaced for that, and one that has ended for that.
pub proof fn law_slots_are_replaced_for_cause(slot: RendererSlot, alive: bool)
    ensures
        slot.next(alive) == SlotStep::Ready <==> alive && !slot.retiring,
        slot.next(alive) == SlotStep::ReplaceRetiring <==> slot.retiring,
        slot.next(alive) == SlotStep::ReplaceFinished <==> !alive && !slot.retiring,
{
}

/// Only a slot that was available counts as exhausted, and nothing else is counted.
pub proof fn law_exhaustion_counts_slots_that_were_there(counts: (u64, u64, u64))
    ensures
        counts.1 < u64::MAX ==> exhausted(counts, true).1 == counts.1 + 1,
        exhausted(counts, true).0 == counts.0,
        exhausted(counts, true).2 == counts.2,
        exhausted(counts, false) == counts,
{
}

/// A style that is missing or stale is named in the failure.
pub proof fn law_stale_styles_are_named(task: InternalTask, e: RendererError)
    requires
        stale(task, e),
    ensures
        e matches RendererError::StyleLoadFailed { style_id, source } && style_id@ == task.style.id@
            && source@ == "prepared style JSON is missing or stale"@,
{
}

} // verus!
