use modular_character::{
    catalog_len, catalog_path, input_step, step_variant, ModularCharacter, ModularPlugin, Region,
    ResetChanged, SegmentSlot, Step, UpdateStep,
};

#[test]
fn catalog_sizes() {
    assert_eq!(catalog_len(Region::Head), 4);
    assert_eq!(catalog_len(Region::Body), 5);
    assert_eq!(catalog_len(Region::Legs), 5);
    assert_eq!(catalog_len(Region::Feet), 4);
    assert_eq!(catalog_path(Region::Head, 0), "Witch.gltf#Scene2");
    assert_eq!(catalog_path(Region::Body, 4), "scifi_torso.glb#Scene0");
    assert_eq!(catalog_path(Region::Legs, 4), "witch_legs.glb#Scene0");
    assert_eq!(catalog_path(Region::Feet, 3), "Adventurer.gltf#Scene5");
}

#[test]
fn wraparound_at_both_ends() {
    assert_eq!(step_variant(0, Step::Decrement, 4), 3);
    assert_eq!(step_variant(3, Step::Increment, 4), 0);
    assert_eq!(step_variant(2, Step::Decrement, 5), 1);
    assert_eq!(step_variant(2, Step::Increment, 5), 3);
    assert_eq!(step_variant(0, Step::Increment, 1), 0);
    assert_eq!(step_variant(0, Step::Decrement, 1), 0);
}

#[test]
fn variant_stays_in_catalog_over_many_requests() {
    let mut slot = SegmentSlot::new(Region::Body, 1);
    let steps = [
        Step::Decrement,
        Step::Decrement,
        Step::Increment,
        Step::Decrement,
        Step::Decrement,
        Step::Decrement,
        Step::Decrement,
        Step::Decrement,
        Step::Increment,
    ];
    for (i, step) in steps.iter().enumerate() {
        slot.request_variant(*step, 10 + i as u128);
        assert!(slot.variant_id < catalog_len(Region::Body));
    }
    // five steps down in all, on a catalog of five, come back to the start
    assert_eq!(slot.variant_id, 0);
}

#[test]
fn increment_wins_a_tie() {
    assert_eq!(input_step(true, true), Some(Step::Increment));
    assert_eq!(input_step(true, false), Some(Step::Decrement));
    assert_eq!(input_step(false, true), Some(Step::Increment));
    assert_eq!(input_step(false, false), None);
}

#[test]
fn only_last_request_stays_pending() {
    let mut slot = SegmentSlot::new(Region::Legs, 100);
    assert_eq!(slot.request_variant(Step::Increment, 101), Some(100));
    assert_eq!(slot.request_variant(Step::Increment, 102), Some(101));
    assert_eq!(slot.request_variant(Step::Decrement, 103), Some(102));
    assert_eq!(slot.pending_instance, Some(103));
    assert_eq!(slot.variant_id, 1);
    assert!(slot.changed);
}

#[test]
fn retry_until_ready_then_rebuild_once() {
    let mut slot = SegmentSlot::new(Region::Feet, 7);
    for _ in 0..3 {
        assert!(matches!(slot.update(false), UpdateStep::Retry));
        assert_eq!(slot.pending_instance, Some(7));
        assert!(slot.owned_entities.is_empty());
        slot.mark_changed();
    }
    match slot.update(true) {
        UpdateStep::Rebuild { stale, instance } => {
            assert!(stale.is_empty());
            assert_eq!(instance, 7);
        }
        other => panic!("expected a rebuild, got {:?}", other),
    }
    assert_eq!(slot.commit_rebuild(vec![40, 41]), Some(7));
    assert_eq!(slot.pending_instance, None);
    assert_eq!(slot.owned_entities, vec![40, 41]);
    assert!(!slot.changed);
    assert!(matches!(slot.update(true), UpdateStep::Idle));
}

#[test]
fn unflagged_slot_is_left_alone() {
    let mut slot = SegmentSlot::new(Region::Head, 5);
    assert!(matches!(slot.update(false), UpdateStep::Retry));
    assert!(matches!(slot.update(true), UpdateStep::Idle));
    assert_eq!(slot.pending_instance, Some(5));
}

#[test]
fn second_request_before_readiness_wins() {
    let mut slot = SegmentSlot::new(Region::Head, 1);
    assert!(matches!(slot.update(true), UpdateStep::Rebuild { .. }));
    slot.commit_rebuild(vec![500]);
    assert_eq!(slot.variant_id, 0);

    assert_eq!(slot.request_variant(Step::Increment, 11), None);
    assert_eq!(slot.variant_id, 1);
    assert!(matches!(slot.update(false), UpdateStep::Retry));
    slot.mark_changed();

    assert_eq!(slot.request_variant(Step::Increment, 12), Some(11));
    assert_eq!(slot.variant_id, 2);
    match slot.update(true) {
        UpdateStep::Rebuild { stale, instance } => {
            assert_eq!(instance, 12);
            assert_eq!(stale, vec![500]);
        }
        other => panic!("expected a rebuild, got {:?}", other),
    }
    assert_eq!(slot.commit_rebuild(vec![600, 601]), Some(12));
    assert_eq!(slot.owned_entities, vec![600, 601]);
    assert_eq!(catalog_path(Region::Head, slot.variant_id), "Soldier.gltf#Scene2");
}

#[test]
fn rebuild_replaces_three_old_entities() {
    let mut slot = SegmentSlot::new(Region::Body, 1);
    slot.update(true);
    slot.commit_rebuild(vec![1, 2, 3]);
    slot.request_variant(Step::Increment, 2);
    let stale = match slot.update(true) {
        UpdateStep::Rebuild { stale, instance } => {
            assert_eq!(instance, 2);
            stale
        }
        other => panic!("expected a rebuild, got {:?}", other),
    };
    assert_eq!(stale, vec![1, 2, 3]);
    assert!(slot.owned_entities.is_empty());
    slot.commit_rebuild(vec![4, 5]);
    assert_eq!(slot.owned_entities, vec![4, 5]);
    assert!(slot.owned_entities.iter().all(|e| !stale.contains(e)));
}

#[test]
fn character_retry_flags_its_slots() {
    let mut plugin = ModularPlugin::new();
    let mut character = ModularCharacter::new(9, 1, 2, 3, 4);
    let mut other = ModularCharacter::new(10, 5, 6, 7, 8);
    assert!(matches!(plugin.update_segment(&mut character, Region::Legs, false), UpdateStep::Retry));
    assert!(matches!(plugin.update_segment(&mut other, Region::Legs, true), UpdateStep::Rebuild { .. }));
    assert_eq!(plugin.signals, vec![ResetChanged(9)]);
    assert!(!character.legs.changed);
    plugin.update_segment(&mut other, Region::Head, true);
    plugin.retry_pass(&mut character);
    plugin.retry_pass(&mut other);
    plugin.end_tick();
    assert!(plugin.signals.is_empty());
    assert!(character.legs.changed);
    assert!(!other.legs.changed);
    assert!(!other.head.changed);
    assert_eq!(character.slot(Region::Legs).pending_instance, Some(3));
}

#[test]
fn character_cycles_one_region() {
    let mut character = ModularCharacter::new(1, 10, 20, 30, 40);
    assert_eq!(character.request_variant(Region::Feet, Step::Decrement, 41), Some(40));
    assert_eq!(character.feet.variant_id, 3);
    assert_eq!(character.head.variant_id, 0);
    assert_eq!(character.head.pending_instance, Some(10));
    assert!(matches!(character.update(Region::Feet, true), UpdateStep::Rebuild { instance: 41, .. }));
    assert_eq!(character.commit_rebuild(Region::Feet, vec![77]), Some(41));
    assert_eq!(character.slot(Region::Feet).owned_entities, vec![77]);
}

#[test]
fn flagged_slot_without_load_does_nothing() {
    let mut slot = SegmentSlot::new(Region::Legs, 3);
    slot.update(true);
    assert_eq!(slot.commit_rebuild(vec![8]), Some(3));
    slot.mark_changed();
    assert!(matches!(slot.update(true), UpdateStep::Idle));
    assert!(!slot.changed);
    assert_eq!(slot.owned_entities, vec![8]);
    assert_eq!(slot.pending_instance, None);
}
