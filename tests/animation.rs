use modular_character::{AnimationCycle, ANIMATION_COUNT};

#[test]
fn first_sight_starts_clip_zero() {
    let mut cycle = AnimationCycle::new();
    assert_eq!(cycle.advance(false, ANIMATION_COUNT), Some(0));
    assert_eq!(cycle.current, Some(0));
}

#[test]
fn busy_player_keeps_its_clip() {
    let mut cycle = AnimationCycle { current: Some(5) };
    assert_eq!(cycle.advance(false, ANIMATION_COUNT), None);
    assert_eq!(cycle.current, Some(5));
}

#[test]
fn idle_player_moves_on_and_wraps() {
    let mut cycle = AnimationCycle { current: Some(5) };
    assert_eq!(cycle.advance(true, ANIMATION_COUNT), Some(6));
    let mut last = AnimationCycle { current: Some(23) };
    assert_eq!(last.advance(true, ANIMATION_COUNT), Some(0));
    assert_eq!(last.current, Some(0));
}
