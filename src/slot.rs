use vstd::prelude::*;

use crate::region::{
    catalog_len, lemma_steps_stay_in_catalog, region_len, step_variant, stepped, stepped_all, Region,
    Step,
};

verus! {

/// The state of one body region of a character.
///
/// Entities are named by their bit patterns (`u64`) and scene instances by
/// their identifiers (`u128`).
#[derive(Debug)]
pub struct SegmentSlot {
    /// The region this slot shows; fixed at creation.
    pub region: Region,
    /// Index into the region's catalog.
    pub variant_id: usize,
    /// The scene instance whose load is outstanding, if any.
    pub pending_instance: Option<u128>,
    /// The mesh containers currently built under the character for this slot.
    pub owned_entities: Vec<u64>,
    /// Whether the slot waits for the update pass.
    pub changed: bool,
}

/// What the update pass asks the caller to do for a slot.
#[derive(Debug)]
pub enum UpdateStep {
    /// Nothing: the slot was not flagged, or has no load outstanding.
    Idle,
    /// The load is not ready: flag the slot again on the next tick.
    Retry,
    /// The load is ready: destroy `stale`, then rebuild from `instance` and
    /// hand the new containers to `commit_rebuild`.
    Rebuild { stale: Vec<u64>, instance: u128 },
}

/// The slot's plain values, as contracts speak of them.
pub struct SlotModel {
    pub region: Region,
    pub variant_id: nat,
    pub pending_instance: Option<u128>,
    pub owned_entities: Seq<u64>,
    pub changed: bool,
}

/// The slot after a request for one step, loading `instance`.
pub open spec fn requested(s: SlotModel, step: Step, instance: u128) -> SlotModel {
    SlotModel {
        variant_id: stepped(s.variant_id, step, region_len(s.region)),
        pending_instance: Some(instance),
        changed: true,
        ..s
    }
}

/// The slot after every request of `steps`, the i-th loading `instances[i]`.
pub open spec fn requested_all(s: SlotModel, steps: Seq<Step>, instances: Seq<u128>) -> SlotModel
    recommends
        steps.len() == instances.len(),
    decreases steps.len(),
{
    if steps.len() == 0 || instances.len() == 0 {
        s
    } else {
        requested(
            requested_all(s, steps.drop_last(), instances.drop_last()),
            steps.last(),
            instances.last(),
        )
    }
}

/// The slot after the update pass has looked at it, readiness being `ready`.
pub open spec fn updated(s: SlotModel, ready: bool) -> SlotModel {
    if s.changed && s.pending_instance.is_some() && ready {
        SlotModel { owned_entities: Seq::empty(), changed: false, ..s }
    } else {
        SlotModel { changed: false, ..s }
    }
}

/// The step that the update pass asks for.
pub open spec fn update_kind(s: SlotModel, ready: bool) -> int {
    if !s.changed || s.pending_instance.is_none() {
        0
    } else if !ready {
        1
    } else {
        2
    }
}

/// The slot after a rebuild has put `containers` in place of its meshes.
pub open spec fn committed(s: SlotModel, containers: Seq<u64>) -> SlotModel {
    SlotModel { owned_entities: containers, pending_instance: None, ..s }
}

/// The slot flagged for the next update pass.
pub open spec fn marked(s: SlotModel) -> SlotModel {
    SlotModel { changed: true, ..s }
}

/// One whole tick without input: the update pass, then the rebuild with
/// `containers` if it was asked for, then the retry pass.
pub open spec fn ticked(s: SlotModel, ready: bool, containers: Seq<u64>) -> SlotModel {
    let u = updated(s, ready);
    let k = update_kind(s, ready);
    if k == 2 {
        committed(u, containers)
    } else if k == 1 {
        marked(u)
    } else {
        u
    }
}

/// The slot after one tick without input for each readiness in `readies`,
/// a rebuild putting `containers` in place.
pub open spec fn ticked_all(s: SlotModel, readies: Seq<bool>, containers: Seq<u64>) -> SlotModel
    decreases readies.len(),
{
    if readies.len() == 0 {
        s
    } else {
        ticked(ticked_all(s, readies.drop_last(), containers), readies.last(), containers)
    }
}

/// Any sequence of requests on a slot moves its variant by those steps and
/// keeps it inside the region's catalog.
pub proof fn lemma_requests_stay_in_catalog(s: SlotModel, steps: Seq<Step>, instances: Seq<u128>)
    requires
        s.variant_id < region_len(s.region),
        steps.len() == instances.len(),
    ensures
        requested_all(s, steps, instances).variant_id == stepped_all(
            s.variant_id,
            steps,
            region_len(s.region),
        ),
        requested_all(s, steps, instances).variant_id < region_len(s.region),
        requested_all(s, steps, instances).region == s.region,
    decreases steps.len(),
{
    if steps.len() > 0 {
        lemma_requests_stay_in_catalog(s, steps.drop_last(), instances.drop_last());
    }
    lemma_steps_stay_in_catalog(s.variant_id, steps, region_len(s.region));
}

/// After any non-empty sequence of requests on a slot, exactly one load is
/// pending: the last one requested. Each earlier one was handed back for
/// despawning by the request that followed it.
pub proof fn lemma_one_pending(s: SlotModel, steps: Seq<Step>, instances: Seq<u128>)
    requires
        steps.len() == instances.len(),
        steps.len() > 0,
    ensures
        requested_all(s, steps, instances).pending_instance == Some(instances.last()),
        requested_all(s, steps, instances).changed,
        requested_all(s, steps, instances).owned_entities == s.owned_entities,
        forall|i: int|
            0 < i < steps.len() ==> #[trigger] requested_all(
                s,
                steps.take(i),
                instances.take(i),
            ).pending_instance == Some(instances[i - 1]),
    decreases steps.len(),
{
    if steps.len() > 1 {
        lemma_one_pending(s, steps.drop_last(), instances.drop_last());
        assert(steps.drop_last().take(steps.len() - 1) =~= steps.drop_last());
        assert forall|i: int| 0 < i < steps.len() implies #[trigger] requested_all(
            s,
            steps.take(i),
            instances.take(i),
        ).pending_instance == Some(instances[i - 1]) by {
            if i < steps.len() - 1 {
                assert(steps.drop_last().take(i) =~= steps.take(i));
                assert(instances.drop_last().take(i) =~= instances.take(i));
            } else {
                assert(steps.drop_last() =~= steps.take(i));
                assert(instances.drop_last() =~= instances.take(i));
            }
        }
    } else {
        assert(steps.drop_last().len() == 0);
        assert(requested_all(s, steps.drop_last(), instances.drop_last()) == s);
    }
}

/// A load that becomes ready on the `k`-th tick after it was requested is
/// rebuilt on that tick and no earlier: every tick before leaves the slot
/// waiting and flagged with its old meshes, and that tick leaves it idle with
/// the rebuilt ones.
pub proof fn lemma_retry_converges(s: SlotModel, readies: Seq<bool>, k: int, containers: Seq<u64>)
    requires
        s.changed,
        (s.pending_instance is Some),
        0 <= k < readies.len(),
        forall|j: int| 0 <= j < k ==> !readies[j],
        readies[k],
    ensures
        forall|n: int|
            0 <= n <= k ==> #[trigger] ticked_all(s, readies.take(n), containers) == s,
        forall|n: int|
            0 <= n < k ==> update_kind(#[trigger] ticked_all(s, readies.take(n), containers), readies[n])
                != 2,
        ticked_all(s, readies.take(k + 1), containers) == (SlotModel {
            pending_instance: None,
            owned_entities: containers,
            changed: false,
            ..s
        }),
{
    assert forall|n: int| 0 <= n <= k implies #[trigger] ticked_all(s, readies.take(n), containers)
        == s by {
        lemma_waiting_ticks(s, readies, n, containers);
    }
    lemma_waiting_ticks(s, readies, k, containers);
    assert(readies.take(k + 1).drop_last() =~= readies.take(k));
}

/// A flagged slot whose load is ready is rebuilt in one tick: its old meshes
/// are handed back for destruction and replaced by the new containers, which,
/// being freshly spawned, share none of them; the load is released.
pub proof fn lemma_rebuild_replaces(s: SlotModel, containers: Seq<u64>)
    requires
        s.changed,
        (s.pending_instance is Some),
        forall|e: u64| #[trigger] containers.contains(e) ==> !s.owned_entities.contains(e),
    ensures
        update_kind(s, true) == 2,
        ticked(s, true, containers).owned_entities == containers,
        ticked(s, true, containers).pending_instance is None,
        !ticked(s, true, containers).changed,
        forall|e: u64|
            #[trigger] s.owned_entities.contains(e) ==> !ticked(
                s,
                true,
                containers,
            ).owned_entities.contains(e),
        containers.len() > 0 ==> ticked(s, true, containers).owned_entities.len() > 0,
{
}

proof fn lemma_waiting_ticks(s: SlotModel, readies: Seq<bool>, n: int, containers: Seq<u64>)
    requires
        s.changed,
        (s.pending_instance is Some),
        0 <= n <= readies.len(),
        forall|j: int| 0 <= j < n ==> !readies[j],
    ensures
        ticked_all(s, readies.take(n), containers) == s,
    decreases n,
{
    if n > 0 {
        lemma_waiting_ticks(s, readies, n - 1, containers);
        assert(readies.take(n).drop_last() =~= readies.take(n - 1));
    } else {
        assert(readies.take(0).len() == 0);
    }
}

impl View for SegmentSlot {
    type V = SlotModel;

    open spec fn view(&self) -> SlotModel {
        SlotModel {
            region: self.region,
            variant_id: self.variant_id as nat,
            pending_instance: self.pending_instance,
            owned_entities: self.owned_entities@,
            changed: self.changed,
        }
    }
}

impl SegmentSlot {
    /// The variant index lies inside the region's catalog.
    pub open spec fn wf(&self) -> bool {
        self.variant_id < region_len(self.region)
    }

    /// A slot showing variant 0 of `region`, whose first load is `instance`.
    pub fn new(region: Region, instance: u128) -> (r: SegmentSlot)
        ensures
            r.wf(),
            r@.region == region,
            r@.variant_id == 0,
            r@.pending_instance == Some(instance),
            r@.owned_entities.len() == 0,
            r@.changed,
    {
        SegmentSlot {
            region,
            variant_id: 0,
            pending_instance: Some(instance),
            owned_entities: Vec::new(),
            changed: true,
        }
    }

    /// The variant that one step from the current one reaches.
    pub fn next_variant(&self, step: Step) -> (r: usize)
        requires
            self.wf(),
        ensures
            r == stepped(self@.variant_id, step, region_len(self.region)),
            r < region_len(self.region),
    {
        step_variant(self.variant_id, step, catalog_len(self.region))
    }

    /// Moves one step through the catalog and makes `instance` (the load of
    /// the new variant) the pending one. The load it replaces, if any, is
    /// returned: the caller despawns it, so it is never rebuilt.
    pub fn request_variant(&mut self, step: Step, instance: u128) -> (discarded: Option<u128>)
        requires
            old(self).wf(),
        ensures
            final(self).wf(),
            final(self)@ == requested(old(self)@, step, instance),
            discarded == old(self)@.pending_instance,
    {
        let id = self.next_variant(step);
        self.variant_id = id;
        let discarded = self.pending_instance.take();
        self.pending_instance = Some(instance);
        self.changed = true;
        discarded
    }

    /// Flags the slot for the next update pass, keeping everything else.
    pub fn mark_changed(&mut self)
        ensures
            final(self)@ == marked(old(self)@),
    {
        self.changed = true;
    }

    /// The update pass on this slot, the pending load's readiness being
    /// `ready`. A flagged slot with a pending load either asks for a retry
    /// (not ready; nothing else moves) or gives up its old meshes for
    /// destruction and asks for a rebuild from the pending instance.
    pub fn update(&mut self, ready: bool) -> (r: UpdateStep)
        ensures
            final(self)@ == updated(old(self)@, ready),
            update_kind(old(self)@, ready) == 0 <==> r is Idle,
            update_kind(old(self)@, ready) == 1 <==> r is Retry,
            update_kind(old(self)@, ready) == 2 <==> r is Rebuild,
            r matches UpdateStep::Rebuild { stale, instance } ==> stale@
                == old(self)@.owned_entities && old(self)@.pending_instance == Some(instance),
    {
        if !self.changed {
            return UpdateStep::Idle;
        }
        self.changed = false;
        match self.pending_instance {
            None => UpdateStep::Idle,
            Some(instance) => {
                if !ready {
                    UpdateStep::Retry
                } else {
                    let mut stale: Vec<u64> = Vec::new();
                    std::mem::swap(&mut stale, &mut self.owned_entities);
                    UpdateStep::Rebuild { stale, instance }
                }
            },
        }
    }

    /// Puts the rebuilt `containers` in place and releases the pending load,
    /// which is returned for the caller to despawn.
    pub fn commit_rebuild(&mut self, containers: Vec<u64>) -> (released: Option<u128>)
        ensures
            final(self)@ == committed(old(self)@, containers@),
            released == old(self)@.pending_instance,
    {
        self.owned_entities = containers;
        self.pending_instance.take()
    }
}

} // verus!
