//! The single persistence writer's batching rule. Writes queue up while a save is in
//! flight; each batch is then planned so that every transcript message and welcome-setting
//! change is saved, in order, while the whole-snapshot writes (task list, overlay position,
//! sidebar size) only save their latest snapshot.

use vstd::prelude::*;

use crate::history::{ChatMessage, TaskRow};

verus! {

/// The overlay's position and size.
pub type Bounds = (u16, u16, u16, u16);

/// One queued write. `O` is what the overlay write carries along to be told of a failed
/// save; `S` is the sidebar's remembered size.
pub enum PersistenceWrite<O, S> {
    Message(ChatMessage),
    /// The whole task list as it stands.
    Tasks(Vec<TaskRow>),
    OverlayBounds(Bounds, O),
    ShowWelcomeOverview(bool),
    SidebarState(S),
}

/// A write that is saved as soon as its batch is, never skipped.
pub enum ImmediateWrite {
    Message(ChatMessage),
    ShowWelcomeOverview(bool),
}

/// What to save for one batch: the immediate writes in order, then the latest sidebar
/// size, task list and overlay position, each if the batch held one.
pub struct BatchPlan<O, S> {
    pub immediate: Vec<ImmediateWrite>,
    pub sidebar: Option<S>,
    pub tasks: Option<Vec<TaskRow>>,
    pub overlay: Option<(Bounds, O)>,
}

/// Whether a write is saved without coalescing.
pub open spec fn is_immediate<O, S>(w: PersistenceWrite<O, S>) -> bool {
    w is Message || w is ShowWelcomeOverview
}

/// The immediate writes of `batch`, in order.
pub open spec fn immediate_writes<O, S>(batch: Seq<PersistenceWrite<O, S>>) -> Seq<ImmediateWrite>
    decreases batch.len(),
{
    if batch.len() == 0 {
        Seq::empty()
    } else {
        let rest = immediate_writes(batch.drop_last());
        match batch.last() {
            PersistenceWrite::Message(m) => rest.push(ImmediateWrite::Message(m)),
            PersistenceWrite::ShowWelcomeOverview(b) => rest.push(ImmediateWrite::ShowWelcomeOverview(b)),
            _ => rest,
        }
    }
}

/// The last task list in `batch`.
pub open spec fn last_tasks<O, S>(batch: Seq<PersistenceWrite<O, S>>) -> Option<Vec<TaskRow>>
    decreases batch.len(),
{
    if batch.len() == 0 {
        None
    } else {
        match batch.last() {
            PersistenceWrite::Tasks(t) => Some(t),
            _ => last_tasks(batch.drop_last()),
        }
    }
}

/// The last overlay position in `batch`.
pub open spec fn last_overlay<O, S>(batch: Seq<PersistenceWrite<O, S>>) -> Option<(Bounds, O)>
    decreases batch.len(),
{
    if batch.len() == 0 {
        None
    } else {
        match batch.last() {
            PersistenceWrite::OverlayBounds(b, o) => Some((b, o)),
            _ => last_overlay(batch.drop_last()),
        }
    }
}

/// The last sidebar size in `batch`.
pub open spec fn last_sidebar<O, S>(batch: Seq<PersistenceWrite<O, S>>) -> Option<S>
    decreases batch.len(),
{
    if batch.len() == 0 {
        None
    } else {
        match batch.last() {
            PersistenceWrite::SidebarState(s) => Some(s),
            _ => last_sidebar(batch.drop_last()),
        }
    }
}

/// Plans the saves for one batch of queued writes, oldest first.
pub fn plan_batch<O, S>(batch: Vec<PersistenceWrite<O, S>>) -> (r: BatchPlan<O, S>)
    ensures
        r.immediate@ == immediate_writes(batch@),
        r.tasks == last_tasks(batch@),
        r.overlay == last_overlay(batch@),
        r.sidebar == last_sidebar(batch@),
{
    let ghost all = batch@;
    let mut rest = batch;
    let mut immediate: Vec<ImmediateWrite> = Vec::new();
    let mut sidebar: Option<S> = None;
    let mut tasks: Option<Vec<TaskRow>> = None;
    let mut overlay: Option<(Bounds, O)> = None;
    let n = rest.len();
    let mut k: usize = 0;
    while k < n
        invariant
            n == all.len(),
            k <= n,
            rest@ == all.skip(k as int),
            immediate@ == immediate_writes(all.take(k as int)),
            tasks == last_tasks(all.take(k as int)),
            overlay == last_overlay(all.take(k as int)),
            sidebar == last_sidebar(all.take(k as int)),
        decreases n - k,
    {
        proof {
            assert(all.take(k + 1).drop_last() =~= all.take(k as int));
            assert(all.take(k + 1).last() == all[k as int]);
            assert(rest@[0] == all[k as int]);
        }
        let write = rest.remove(0);
        match write {
            PersistenceWrite::Message(m) => immediate.push(ImmediateWrite::Message(m)),
            PersistenceWrite::Tasks(t) => tasks = Some(t),
            PersistenceWrite::OverlayBounds(b, o) => overlay = Some((b, o)),
            PersistenceWrite::ShowWelcomeOverview(s) => immediate.push(ImmediateWrite::ShowWelcomeOverview(s)),
            PersistenceWrite::SidebarState(s) => sidebar = Some(s),
        }
        proof {
            assert(rest@ =~= all.skip(k + 1));
        }
        k = k + 1;
    }
    proof {
        assert(all.take(n as int) =~= all);
    }
    BatchPlan { immediate, sidebar, tasks, overlay }
}

/// Every message and welcome-setting change in a batch is saved, one save per write, and
/// a batch of no such writes saves none of them.
pub proof fn law_every_immediate_write_is_saved<O, S>(batch: Seq<PersistenceWrite<O, S>>)
    ensures
        immediate_writes(batch).len() == batch.filter(|w: PersistenceWrite<O, S>| is_immediate(w)).len(),
    decreases batch.len(),
{
    reveal_with_fuel(Seq::filter, 1);
    if batch.len() > 0 {
        law_every_immediate_write_is_saved(batch.drop_last());
    }
}

/// A snapshot write followed by more writes of other kinds is still the one saved; a later
/// snapshot of the same kind replaces it.
pub proof fn law_latest_snapshot_wins<O, S>(
    before: Seq<PersistenceWrite<O, S>>,
    tasks: Vec<TaskRow>,
    after: Seq<PersistenceWrite<O, S>>,
)
    requires
        forall|i: int| 0 <= i < after.len() ==> !(#[trigger] after[i] is Tasks),
    ensures
        last_tasks(before.push(PersistenceWrite::Tasks(tasks)) + after) == Some(tasks),
    decreases after.len(),
{
    let b = before.push(PersistenceWrite::Tasks(tasks));
    if after.len() == 0 {
        assert(b + after =~= b);
    } else {
        assert((b + after).drop_last() =~= b + after.drop_last());
        assert((b + after).last() == after.last());
        assert(!(after[after.len() - 1] is Tasks));
        law_latest_snapshot_wins(before, tasks, after.drop_last());
    }
}

} // verus!
