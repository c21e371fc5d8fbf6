//! The health of a node's renderer slots, and how many stuck threads it may
//! leave behind.

use vstd::prelude::*;
use std::collections::HashMap;

verus! {

broadcast use vstd::std_specs::hash::group_hash_axioms;

#[derive(Clone, Copy, Debug, PartialEq, Eq, Structural)]
pub enum RendererHealth {
    /// Every slot is available.
    Full,
    /// A slot is lost while a provider of resources fails.
    ExternalDegraded,
    /// A slot is lost for no outside reason.
    InternalUnrecoverable,
}

impl RendererHealth {
    pub open spec fn text(self) -> Seq<char> {
        match self {
            RendererHealth::Full => "full"@,
            RendererHealth::ExternalDegraded => "external_degraded"@,
            RendererHealth::InternalUnrecoverable => "internal_unrecoverable"@,
        }
    }

    pub fn as_str(self) -> (r: &'static str)
        ensures
            r@ == self.text(),
    {
        match self {
            RendererHealth::Full => "full",
            RendererHealth::ExternalDegraded => "external_degraded",
            RendererHealth::InternalUnrecoverable => "internal_unrecoverable",
        }
    }
}

/// The state of the renderers at one moment.
#[derive(Clone, Copy, Debug, PartialEq, Eq, Structural)]
pub struct RendererActorHealthSnapshot {
    pub total_slots: usize,
    pub available_slots: usize,
    pub orphaned_threads: usize,
    pub replacements_succeeded: u64,
    pub replacements_exhausted: u64,
    pub replacements_failed: u64,
    pub health: RendererHealth,
}

/// All counts of a map, together.
pub open spec fn total(m: Map<usize, usize>) -> nat
    decreases m.dom().len(),
    when m.dom().finite()
{
    if m.dom().len() == 0 {
        0
    } else {
        let k = m.dom().choose();
        m[k] as nat + total(m.remove(k))
    }
}

pub proof fn lemma_total_remove(m: Map<usize, usize>, k: usize)
    requires
        m.dom().finite(),
        m.contains_key(k),
    ensures
        total(m) == m[k] + total(m.remove(k)),
    decreases m.dom().len(),
{
    let c = m.dom().choose();
    assert(m.dom().contains(k));
    assert(m.dom().len() > 0) by {
        if m.dom().len() == 0 {
            assert(m.dom() =~= Set::empty());
        }
    }
    if c != k {
        lemma_total_remove(m.remove(c), k);
        lemma_total_remove(m.remove(k), c);
        assert(m.remove(c).remove(k) =~= m.remove(k).remove(c));
    }
}

pub proof fn lemma_total_insert(m: Map<usize, usize>, k: usize, v: usize)
    requires
        m.dom().finite(),
    ensures
        total(m.insert(k, v)) == v + total(m.remove(k)),
        m.contains_key(k) ==> total(m.insert(k, v)) + m[k] == total(m) + v,
        !m.contains_key(k) ==> total(m.insert(k, v)) == total(m) + v,
{
    lemma_total_remove(m.insert(k, v), k);
    assert(m.insert(k, v).remove(k) =~= m.remove(k));
    if m.contains_key(k) {
        lemma_total_remove(m, k);
    } else {
        assert(m.remove(k) =~= m);
    }
}

/// Keeps count of renderer slots and of the threads left behind in them.
#[derive(Debug)]
pub struct RendererActorSupervisor {
    total_slots: usize,
    available_slots: usize,
    max_orphaned_threads: usize,
    orphaned_threads: usize,
    orphaned_by_worker: HashMap<usize, usize>,
    replacements_succeeded: u64,
    replacements_exhausted: u64,
    replacements_failed: u64,
    external_evidence: bool,
}

impl RendererActorSupervisor {
    /// The number of slots.
    pub closed spec fn slots(&self) -> nat {
        self.total_slots as nat
    }

    /// The number of slots that are available.
    pub closed spec fn available(&self) -> usize {
        self.available_slots
    }

    /// The threads left behind, by worker.
    pub closed spec fn orphans(&self) -> Map<usize, usize> {
        self.orphaned_by_worker@
    }

    /// The replacements that succeeded, had no budget, and failed.
    pub closed spec fn replacements(&self) -> (u64, u64, u64) {
        (self.replacements_succeeded, self.replacements_exhausted, self.replacements_failed)
    }

    /// Whether a provider of resources is known to fail.
    pub closed spec fn provider_fails(&self) -> bool {
        self.external_evidence
    }

    /// There is a slot, the budget is one thread per slot, and the threads left
    /// behind are those of the workers, at least one each.
    pub closed spec fn wf(&self) -> bool {
        &&& self.total_slots >= 1
        &&& self.max_orphaned_threads == self.total_slots
        &&& self.orphaned_by_worker@.dom().finite()
        &&& self.orphaned_threads == total(self.orphaned_by_worker@)
        &&& forall|w: usize|
            #![trigger self.orphaned_by_worker@[w]]
            self.orphaned_by_worker@.contains_key(w) ==> self.orphaned_by_worker@[w] >= 1
    }

    /// Everything but the threads left behind is the same.
    pub open spec fn same_but_orphans(&self, other: &RendererActorSupervisor) -> bool {
        &&& self.slots() == other.slots()
        &&& self.available() == other.available()
        &&& self.replacements() == other.replacements()
        &&& self.provider_fails() == other.provider_fails()
    }

    /// The health that the slots and the evidence amount to.
    pub open spec fn state(&self) -> RendererHealth {
        if self.available() == self.slots() {
            RendererHealth::Full
        } else if self.provider_fails() {
            RendererHealth::ExternalDegraded
        } else {
            RendererHealth::InternalUnrecoverable
        }
    }

    /// A supervisor of at least one slot, all of them available.
    pub fn new(total_slots: usize) -> (r: RendererActorSupervisor)
        ensures
            r.wf(),
            r.slots() == if total_slots >= 1 {
                total_slots as nat
            } else {
                1
            },
            r.available() == r.slots(),
            r.orphans() == Map::<usize, usize>::empty(),
            r.replacements() == (0u64, 0u64, 0u64),
            !r.provider_fails(),
    {
        let slots: usize = if total_slots >= 1 {
            total_slots
        } else {
            1
        };
        let orphaned_by_worker: HashMap<usize, usize> = HashMap::new();
        proof {
            assert(orphaned_by_worker@ =~= Map::<usize, usize>::empty());
            assert(orphaned_by_worker@.dom() =~= Set::<usize>::empty());
        }
        RendererActorSupervisor {
            total_slots: slots,
            available_slots: slots,
            max_orphaned_threads: slots,
            orphaned_threads: 0,
            orphaned_by_worker,
            replacements_succeeded: 0,
            replacements_exhausted: 0,
            replacements_failed: 0,
            external_evidence: false,
        }
    }

    /// Notes whether a provider of resources is known to fail.
    pub fn set_external_evidence(&mut self, evidence: bool)
        requires
            old(self).wf(),
        ensures
            final(self).wf(),
            final(self).provider_fails() == evidence,
            final(self).slots() == old(self).slots(),
            final(self).available() == old(self).available(),
            final(self).orphans() == old(self).orphans(),
            final(self).replacements() == old(self).replacements(),
    {
        self.external_evidence = evidence;
    }

    /// A node takes work unless it lost a slot for no outside reason.
    pub fn is_ready(&self) -> (r: bool)
        ensures
            r == (self.state() != RendererHealth::InternalUnrecoverable),
    {
        match self.health() {
            RendererHealth::InternalUnrecoverable => false,
            _ => true,
        }
    }

    /// A render may start while any slot is available.
    pub fn can_start_render(&self) -> (r: bool)
        ensures
            r == (self.available() > 0),
    {
        self.available_slots > 0
    }

    /// A restart helps only against a slot lost for no outside reason.
    pub fn is_livable(&self) -> (r: bool)
        ensures
            r == (self.state() != RendererHealth::InternalUnrecoverable),
    {
        match self.health() {
            RendererHealth::InternalUnrecoverable => false,
            _ => true,
        }
    }

    pub fn health(&self) -> (r: RendererHealth)
        ensures
            r == self.state(),
    {
        if self.available_slots == self.total_slots {
            RendererHealth::Full
        } else if self.external_evidence {
            RendererHealth::ExternalDegraded
        } else {
            RendererHealth::InternalUnrecoverable
        }
    }

    /// The present state.
    pub fn snapshot(&self) -> (r: RendererActorHealthSnapshot)
        requires
            self.wf(),
        ensures
            r.total_slots == self.slots(),
            r.available_slots == self.available(),
            r.orphaned_threads == total(self.orphans()),
            (r.replacements_succeeded, r.replacements_exhausted, r.replacements_failed)
                == self.replacements(),
            r.health == self.state(),
    {
        RendererActorHealthSnapshot {
            total_slots: self.total_slots,
            available_slots: self.available_slots,
            orphaned_threads: self.orphaned_threads,
            replacements_succeeded: self.replacements_succeeded,
            replacements_exhausted: self.replacements_exhausted,
            replacements_failed: self.replacements_failed,
            health: self.health(),
        }
    }

    /// Leaves a worker's thread behind, if the worker has left none so far and
    /// the budget of one thread per slot allows it.
    pub fn try_reserve_orphan(&mut self, worker_id: usize) -> (r: bool)
        requires
            old(self).wf(),
        ensures
            final(self).wf(),
            final(self).same_but_orphans(old(self)),
            r == (!old(self).orphans().contains_key(worker_id) && total(old(self).orphans()) < old(self).slots()),
            final(self).orphans() == if r {
                old(self).orphans().insert(worker_id, 1)
            } else {
                old(self).orphans()
            },
    {
        if self.orphaned_by_worker.contains_key(&worker_id) || self.orphaned_threads
            >= self.max_orphaned_threads {
            return false;
        }
        proof {
            lemma_total_insert(self.orphaned_by_worker@, worker_id, 1);
        }
        self.orphaned_by_worker.insert(worker_id, 1);
        self.orphaned_threads = self.orphaned_threads + 1;
        true
    }

    /// Leaves a worker's thread behind whatever the budget says.
    pub fn reserve_orphan_unchecked(&mut self, worker_id: usize)
        requires
            old(self).wf(),
            total(old(self).orphans()) < usize::MAX,
        ensures
            final(self).wf(),
            final(self).same_but_orphans(old(self)),
            final(self).orphans() == old(self).orphans().insert(
                worker_id,
                if old(self).orphans().contains_key(worker_id) {
                    (old(self).orphans()[worker_id] + 1) as usize
                } else {
                    1
                },
            ),
    {
        let ghost m = self.orphaned_by_worker@;
        let count: usize = match self.orphaned_by_worker.get(&worker_id) {
            Some(n) => {
                proof {
                    lemma_total_remove(m, worker_id);
                }
                *n + 1
            },
            None => 1,
        };
        proof {
            lemma_total_insert(m, worker_id, count);
        }
        self.orphaned_by_worker.insert(worker_id, count);
        self.orphaned_threads = self.orphaned_threads + 1;
    }

    /// A thread left behind has ended.
    pub fn release_orphan(&mut self, worker_id: usize)
        requires
            old(self).wf(),
        ensures
            final(self).wf(),
            final(self).same_but_orphans(old(self)),
            final(self).orphans() == if !old(self).orphans().contains_key(worker_id) {
                old(self).orphans()
            } else if old(self).orphans()[worker_id] == 1 {
                old(self).orphans().remove(worker_id)
            } else {
                old(self).orphans().insert(
                    worker_id,
                    (old(self).orphans()[worker_id] - 1) as usize,
                )
            },
    {
        let ghost m = self.orphaned_by_worker@;
        let count: usize = match self.orphaned_by_worker.get(&worker_id) {
            Some(n) => *n,
            None => {
                return ;
            },
        };
        assert(m[worker_id] >= 1);
        proof {
            lemma_total_remove(m, worker_id);
        }
        if count == 1 {
            self.orphaned_by_worker.remove(&worker_id);
        } else {
            proof {
                lemma_total_insert(m, worker_id, (count - 1) as usize);
            }
            self.orphaned_by_worker.insert(worker_id, count - 1);
        }
        self.orphaned_threads = self.orphaned_threads - 1;
    }

    /// A release takes one thread off the count.
    pub proof fn lemma_release(&self, before: Map<usize, usize>, worker_id: usize)
        requires
            before.dom().finite(),
            self.orphans() == if !before.contains_key(worker_id) {
                before
            } else if before[worker_id] == 1 {
                before.remove(worker_id)
            } else {
                before.insert(worker_id, (before[worker_id] - 1) as usize)
            },
            before.contains_key(worker_id) ==> before[worker_id] >= 1,
        ensures
            before.contains_key(worker_id) ==> total(self.orphans()) == total(before) - 1,
    {
        if before.contains_key(worker_id) {
            lemma_total_remove(before, worker_id);
            if before[worker_id] != 1 {
                lemma_total_insert(before, worker_id, (before[worker_id] - 1) as usize);
            }
        }
    }

    /// The threads left behind are finitely many, at least one for each worker
    /// that is listed.
    pub proof fn lemma_wf_orphans(&self, worker_id: usize)
        requires
            self.wf(),
        ensures
            self.orphans().dom().finite(),
            self.orphans().contains_key(worker_id) ==> self.orphans()[worker_id] >= 1,
    {
        assert(self.orphaned_by_worker@.contains_key(worker_id)
            ==> self.orphaned_by_worker@[worker_id] >= 1);
    }

    /// Everything but the count of replacements is the same.
    pub open spec fn same_but_replacements(&self, other: &RendererActorSupervisor) -> bool {
        &&& self.slots() == other.slots()
        &&& self.available() == other.available()
        &&& self.orphans() == other.orphans()
        &&& self.provider_fails() == other.provider_fails()
    }

    pub fn record_replacement_succeeded(&mut self)
        requires
            old(self).wf(),
        ensures
            final(self).wf(),
            final(self).same_but_replacements(old(self)),
            final(self).replacements() == (
                old(self).replacements().0.wrapping_add(1),
                old(self).replacements().1,
                old(self).replacements().2,
            ),
    {
        self.replacements_succeeded = self.replacements_succeeded.wrapping_add(1);
    }

    pub fn record_replacement_exhausted(&mut self)
        requires
            old(self).wf(),
        ensures
            final(self).wf(),
            final(self).same_but_replacements(old(self)),
            final(self).replacements() == (
                old(self).replacements().0,
                old(self).replacements().1.wrapping_add(1),
                old(self).replacements().2,
            ),
    {
        self.replacements_exhausted = self.replacements_exhausted.wrapping_add(1);
    }

    pub fn record_replacement_failed(&mut self)
        requires
            old(self).wf(),
        ensures
            final(self).wf(),
            final(self).same_but_replacements(old(self)),
            final(self).replacements() == (
                old(self).replacements().0,
                old(self).replacements().1,
                old(self).replacements().2.wrapping_add(1),
            ),
    {
        self.replacements_failed = self.replacements_failed.wrapping_add(1);
    }

    /// A slot becomes available or is lost; `available` is the slot's own flag.
    pub fn set_slot_available(&mut self, available: &mut bool, next: bool)
        requires
            old(self).wf(),
        ensures
            final(self).wf(),
            *final(available) == next,
            final(self).available() == slots_after(old(self).available(), *old(available), next),
            final(self).slots() == old(self).slots(),
            final(self).orphans() == old(self).orphans(),
            final(self).replacements() == old(self).replacements(),
            final(self).provider_fails() == old(self).provider_fails(),
    {
        if *available == next {
            return ;
        }
        if next {
            self.available_slots = self.available_slots.wrapping_add(1);
        } else {
            self.available_slots = self.available_slots.wrapping_sub(1);
        }
        *available = next;
    }
}

/// The available slots once one slot's flag goes from `from` to `to`.
pub open spec fn slots_after(available: usize, from: bool, to: bool) -> usize {
    if from == to {
        available
    } else if to {
        available.wrapping_add(1)
    } else {
        available.wrapping_sub(1)
    }
}

/// How many flags are set.
pub open spec fn set_flags(flags: Seq<bool>) -> nat
    decreases flags.len(),
{
    if flags.len() == 0 {
        0
    } else {
        set_flags(flags.drop_last()) + if flags.last() {
            1nat
        } else {
            0nat
        }
    }
}

proof fn lemma_set_flags_update(flags: Seq<bool>, i: int, next: bool)
    requires
        0 <= i < flags.len(),
    ensures
        set_flags(flags.update(i, next)) == set_flags(flags) - (if flags[i] {
            1int
        } else {
            0
        }) + (if next {
            1int
        } else {
            0
        }),
        set_flags(flags) <= flags.len(),
        flags[i] ==> set_flags(flags) >= 1,
        !flags[i] ==> set_flags(flags) < flags.len(),
    decreases flags.len(),
{
    let last = flags.len() - 1;
    if i == last {
        assert(flags.update(i, next).drop_last() =~= flags.drop_last());
        lemma_set_flags_bound(flags.drop_last());
    } else {
        assert(flags.update(i, next).drop_last() =~= flags.drop_last().update(i, next));
        lemma_set_flags_update(flags.drop_last(), i, next);
    }
}

proof fn lemma_set_flags_bound(flags: Seq<bool>)
    ensures
        set_flags(flags) <= flags.len(),
    decreases flags.len(),
{
    if flags.len() > 0 {
        lemma_set_flags_bound(flags.drop_last());
    }
}

/// While every slot reports through its own flag, the available slots are
/// exactly the slots whose flag is set.
pub proof fn law_available_slots_are_the_set_flags(
    flags: Seq<bool>,
    available: usize,
    i: int,
    next: bool,
)
    requires
        0 <= i < flags.len() <= usize::MAX,
        available == set_flags(flags),
    ensures
        slots_after(available, flags[i], next) == set_flags(flags.update(i, next)),
{
    lemma_set_flags_update(flags, i, next);
}

/// Within the budget no worker leaves more than one thread behind and all
/// workers together leave no more than there are slots, so that one hot worker
/// cannot use up the budget of the others.
pub proof fn law_orphan_budget(orphans: Map<usize, usize>, slots: nat, worker: usize)
    requires
        orphans.dom().finite(),
        total(orphans) < slots,
        !orphans.contains_key(worker),
        forall|w: usize| #[trigger] orphans.contains_key(w) ==> orphans[w] == 1,
    ensures
        total(orphans.insert(worker, 1)) <= slots,
        forall|w: usize|
            #[trigger] orphans.insert(worker, 1).contains_key(w) ==> orphans.insert(worker, 1)[w]
                == 1,
{
    lemma_total_insert(orphans, worker, 1);
}

/// A thread that was left behind and has ended leaves the count as it was.
pub proof fn law_release_undoes_reserve(orphans: Map<usize, usize>, worker: usize)
    requires
        orphans.dom().finite(),
        !orphans.contains_key(worker),
    ensures
        orphans.insert(worker, 1).remove(worker) == orphans,
        total(orphans.insert(worker, 1)) == total(orphans) + 1,
{
    lemma_total_insert(orphans, worker, 1);
    assert(orphans.insert(worker, 1).remove(worker) =~= orphans);
}

/// A node whose slots are all available is in full health. Otherwise its state is the
/// provider's fault if there is evidence for that, and else its own.
pub proof fn law_health_follows_slots_and_evidence(supervisor: RendererActorSupervisor)
    ensures
        supervisor.state() == RendererHealth::Full <==> supervisor.available()
            == supervisor.slots(),
        supervisor.state() == RendererHealth::ExternalDegraded <==> supervisor.available()
            != supervisor.slots() && supervisor.provider_fails(),
        supervisor.state() == RendererHealth::InternalUnrecoverable <==> supervisor.available()
            != supervisor.slots() && !supervisor.provider_fails(),
        RendererHealth::Full.text() == "full"@,
        RendererHealth::ExternalDegraded.text() == "external_degraded"@,
        RendererHealth::InternalUnrecoverable.text() == "internal_unrecoverable"@,
{
}

/// The flags that are set are counted.
pub proof fn law_set_flags_are_counted(flags: Seq<bool>, set: spec_fn(bool) -> bool)
    requires
        forall|b: bool| #[trigger] set(b) == b,
    ensures
        set_flags(flags) == flags.filter(set).len(),
    decreases flags.len(),
{
    reveal(Seq::filter);
    if flags.len() > 0 {
        law_set_flags_are_counted(flags.drop_last(), set);
        assert(set(flags.last()) == flags.last());
    }
}

/// A slot that becomes available adds one, one that is lost takes one away, and one that
/// stays as it is does neither.
pub proof fn law_slots_come_and_go(available: usize)
    ensures
        available < usize::MAX ==> slots_after(available, false, true) == available + 1,
        available > 0 ==> slots_after(available, true, false) == available - 1,
        slots_after(available, true, true) == available,
        slots_after(available, false, false) == available,
{
}

/// Threads that were left behind are counted worker by worker.
pub proof fn law_orphans_are_counted_by_worker(
    orphans: Map<usize, usize>,
    worker: usize,
    count: usize,
)
    requires
        orphans.dom().finite(),
        !orphans.contains_key(worker),
    ensures
        total(Map::<usize, usize>::empty()) == 0,
        total(orphans.insert(worker, count)) == total(orphans) + count,
{
    lemma_total_insert(orphans, worker, count);
}

/// Where only threads were left behind or came back, slots, replacements and evidence are
/// as they were; where only a replacement was counted, all else is.
pub proof fn law_nothing_else_changes(a: RendererActorSupervisor, b: RendererActorSupervisor)
    ensures
        a.same_but_orphans(&b) ==> a.slots() == b.slots() && a.available() == b.available()
            && a.replacements() == b.replacements() && a.state() == b.state(),
        a.same_but_replacements(&b) ==> a.slots() == b.slots() && a.available() == b.available()
            && a.orphans() == b.orphans() && a.state() == b.state(),
{
}

} // verus!
