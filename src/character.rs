use vstd::prelude::*;

use crate::region::{Region, Step};
use crate::slot::{committed, marked, requested, update_kind, updated, SegmentSlot, UpdateStep};

verus! {

/// Asks for a character's slots to be looked at again on the next tick.
#[derive(Clone, Copy, Debug, PartialEq, Eq, Structural)]
pub struct ResetChanged(pub u64);

/// A character: its entity and one slot per region. The skeleton lives under
/// the entity and is never touched by a slot.
#[derive(Debug)]
pub struct ModularCharacter {
    pub entity: u64,
    pub head: SegmentSlot,
    pub body: SegmentSlot,
    pub legs: SegmentSlot,
    pub feet: SegmentSlot,
}

/// The step that a region's two triggers ask for this tick; when both fire,
/// the increment wins.
pub fn input_step(decrement: bool, increment: bool) -> (r: Option<Step>)
    ensures
        increment ==> r == Some(Step::Increment),
        !increment && decrement ==> r == Some(Step::Decrement),
        !increment && !decrement ==> r is None,
{
    if increment {
        Some(Step::Increment)
    } else if decrement {
        Some(Step::Decrement)
    } else {
        None
    }
}

impl ModularCharacter {
    /// The slot of `region`, as a spec value.
    pub open spec fn slot_of(&self, region: Region) -> SegmentSlot {
        match region {
            Region::Head => self.head,
            Region::Body => self.body,
            Region::Legs => self.legs,
            Region::Feet => self.feet,
        }
    }

    /// Each slot shows its own region, within its catalog.
    pub open spec fn wf(&self) -> bool {
        &&& self.head.wf() && self.head.region == Region::Head
        &&& self.body.wf() && self.body.region == Region::Body
        &&& self.legs.wf() && self.legs.region == Region::Legs
        &&& self.feet.wf() && self.feet.region == Region::Feet
    }

    /// Whether the slots other than `region`'s are the same in `a` and `b`.
    pub open spec fn others_kept(a: &ModularCharacter, b: &ModularCharacter, region: Region) -> bool {
        &&& a.entity == b.entity
        &&& forall|r: Region| r != region ==> #[trigger] a.slot_of(r)@ == b.slot_of(r)@
    }

    /// A character on `entity` whose slots show variant 0 and wait for the
    /// given first loads.
    pub fn new(entity: u64, head: u128, body: u128, legs: u128, feet: u128) -> (r: ModularCharacter)
        ensures
            r.wf(),
            r.entity == entity,
            r.head@.pending_instance == Some(head),
            r.body@.pending_instance == Some(body),
            r.legs@.pending_instance == Some(legs),
            r.feet@.pending_instance == Some(feet),
            forall|g: Region|
                #![trigger r.slot_of(g)]
                r.slot_of(g)@.variant_id == 0 && r.slot_of(g)@.owned_entities.len() == 0
                    && r.slot_of(g)@.changed,
    {
        ModularCharacter {
            entity,
            head: SegmentSlot::new(Region::Head, head),
            body: SegmentSlot::new(Region::Body, body),
            legs: SegmentSlot::new(Region::Legs, legs),
            feet: SegmentSlot::new(Region::Feet, feet),
        }
    }

    /// The slot of `region`.
    pub fn slot(&self, region: Region) -> (r: &SegmentSlot)
        ensures
            *r == self.slot_of(region),
    {
        match region {
            Region::Head => &self.head,
            Region::Body => &self.body,
            Region::Legs => &self.legs,
            Region::Feet => &self.feet,
        }
    }

    /// The signal that flags this character's slots again.
    pub fn retry_signal(&self) -> (r: ResetChanged)
        ensures
            r.0 == self.entity,
    {
        ResetChanged(self.entity)
    }

    /// The cycle pass for `region`: one step through its catalog, loading
    /// `instance`. The load it replaces is returned for the caller to despawn.
    pub fn request_variant(&mut self, region: Region, step: Step, instance: u128) -> (discarded:
        Option<u128>)
        requires
            old(self).wf(),
        ensures
            final(self).wf(),
            final(self).slot_of(region)@ == requested(old(self).slot_of(region)@, step, instance),
            discarded == old(self).slot_of(region)@.pending_instance,
            Self::others_kept(old(self), final(self), region),
    {
        match region {
            Region::Head => self.head.request_variant(step, instance),
            Region::Body => self.body.request_variant(step, instance),
            Region::Legs => self.legs.request_variant(step, instance),
            Region::Feet => self.feet.request_variant(step, instance),
        }
    }

    /// The update pass on the slot of `region`; see `SegmentSlot::update`.
    pub fn update(&mut self, region: Region, ready: bool) -> (r: UpdateStep)
        requires
            old(self).wf(),
        ensures
            final(self).wf(),
            final(self).slot_of(region)@ == updated(old(self).slot_of(region)@, ready),
            update_kind(old(self).slot_of(region)@, ready) == 0 <==> r is Idle,
            update_kind(old(self).slot_of(region)@, ready) == 1 <==> r is Retry,
            update_kind(old(self).slot_of(region)@, ready) == 2 <==> r is Rebuild,
            r matches UpdateStep::Rebuild { stale, instance } ==> stale@ == old(self).slot_of(
                region,
            )@.owned_entities && old(self).slot_of(region)@.pending_instance == Some(instance),
            Self::others_kept(old(self), final(self), region),
    {
        match region {
            Region::Head => self.head.update(ready),
            Region::Body => self.body.update(ready),
            Region::Legs => self.legs.update(ready),
            Region::Feet => self.feet.update(ready),
        }
    }

    /// Puts the rebuilt `containers` of `region` in place; the released load
    /// is returned for the caller to despawn.
    pub fn commit_rebuild(&mut self, region: Region, containers: Vec<u64>) -> (released: Option<
        u128,
    >)
        requires
            old(self).wf(),
        ensures
            final(self).wf(),
            final(self).slot_of(region)@ == committed(old(self).slot_of(region)@, containers@),
            released == old(self).slot_of(region)@.pending_instance,
            Self::others_kept(old(self), final(self), region),
    {
        match region {
            Region::Head => self.head.commit_rebuild(containers),
            Region::Body => self.body.commit_rebuild(containers),
            Region::Legs => self.legs.commit_rebuild(containers),
            Region::Feet => self.feet.commit_rebuild(containers),
        }
    }

    /// Every slot flagged for the next update pass.
    pub open spec fn all_marked(a: &ModularCharacter, b: &ModularCharacter) -> bool {
        &&& a.entity == b.entity
        &&& forall|r: Region| #[trigger] b.slot_of(r)@ == marked(a.slot_of(r)@)
    }

    /// The retry pass: when a signal names this character, each of its slots
    /// is flagged again; otherwise nothing changes.
    pub fn reset_changed(&mut self, signals: &Vec<ResetChanged>)
        requires
            old(self).wf(),
        ensures
            final(self).wf(),
            signals@.contains(ResetChanged(old(self).entity)) ==> Self::all_marked(
                old(self),
                final(self),
            ),
            !signals@.contains(ResetChanged(old(self).entity)) ==> *final(self) == *old(self),
    {
        let mut named = false;
        let mut i: usize = 0;
        while i < signals.len()
            invariant
                i <= signals@.len(),
                named <==> exists|j: int| 0 <= j < i && signals@[j] == ResetChanged(self.entity),
            decreases signals@.len() - i,
        {
            if signals[i].0 == self.entity {
                named = true;
            }
            i = i + 1;
        }
        if named {
            self.head.mark_changed();
            self.body.mark_changed();
            self.legs.mark_changed();
            self.feet.mark_changed();
        }
    }
}

/// The segment plugin's own state across the passes of a tick: the retry
/// signals that the update pass queues and the retry pass consumes. The
/// engine schedules the passes (cycle, update, retry) around it.
#[derive(Debug)]
pub struct ModularPlugin {
    pub signals: Vec<ResetChanged>,
}

impl ModularPlugin {
    /// An empty queue.
    pub fn new() -> (r: ModularPlugin)
        ensures
            r.signals@.len() == 0,
    {
        ModularPlugin { signals: Vec::new() }
    }

    /// The update pass on the slot of `region` of `character`; a load that is
    /// not ready queues a signal for the character.
    pub fn update_segment(&mut self, character: &mut ModularCharacter, region: Region, ready: bool) -> (r:
        UpdateStep)
        requires
            old(character).wf(),
        ensures
            final(character).wf(),
            final(character).slot_of(region)@ == updated(old(character).slot_of(region)@, ready),
            ModularCharacter::others_kept(old(character), final(character), region),
            update_kind(old(character).slot_of(region)@, ready) == 0 <==> r is Idle,
            update_kind(old(character).slot_of(region)@, ready) == 1 <==> r is Retry,
            update_kind(old(character).slot_of(region)@, ready) == 2 <==> r is Rebuild,
            r matches UpdateStep::Rebuild { stale, instance } ==> stale@ == old(
                character,
            ).slot_of(region)@.owned_entities && old(character).slot_of(region)@.pending_instance
                == Some(instance),
            r is Retry ==> final(self).signals@ == old(self).signals@.push(
                ResetChanged(old(character).entity),
            ),
            !(r is Retry) ==> final(self).signals@ == old(self).signals@,
    {
        let r = character.update(region, ready);
        if let UpdateStep::Retry = r {
            self.signals.push(character.retry_signal());
        }
        r
    }

    /// The retry pass on `character`: the signals queued for it this tick
    /// flag its slots for the next tick.
    pub fn retry_pass(&self, character: &mut ModularCharacter)
        requires
            old(character).wf(),
        ensures
            final(character).wf(),
            self.signals@.contains(ResetChanged(old(character).entity))
                ==> ModularCharacter::all_marked(old(character), final(character)),
            !self.signals@.contains(ResetChanged(old(character).entity)) ==> *final(character)
                == *old(character),
    {
        character.reset_changed(&self.signals);
    }

    /// Ends the tick: every queued signal has been consumed.
    pub fn end_tick(&mut self)
        ensures
            final(self).signals@.len() == 0,
    {
        self.signals = Vec::new();
    }
}

} // verus!
