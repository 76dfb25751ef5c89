use my_mod::spawns::{
    aggregate_spawn_targets, begin_spawn_aggregation, cancel_spawned_unit_effect, consume_spawned_unit_target,
    end_spawn_aggregation, forget_spawned_unit, maintain_spawn_attack_gate, set_spawn_attack_enabled,
    spawn_effect_multiplier, spawned_unit_effect_is_active, spawned_unit_ids, spawned_units, track_spawned_unit,
    hits_fit_for, GateActions,
};
use my_mod::state::ModState;

#[test]
fn tracking_assigns_serials_and_lists_living_units() {
    let mut st: ModState<u32> = ModState::new();
    assert_eq!(track_spawned_unit(&mut st, 5, 10, 100, 300, "naruto", true), 1);
    assert_eq!(track_spawned_unit(&mut st, 5, 10, 100, 301, "naruto", true), 2);
    assert_eq!(track_spawned_unit(&mut st, 5, 10, 100, 302, "other", true), 3);
    assert_eq!(track_spawned_unit(&mut st, 6, 10, 100, 300, "naruto", true), 4);
    assert_eq!(spawned_unit_ids(&mut st, 5, &vec![300, 301, 302], 100, "naruto"), vec![300, 301]);
    // Unit 301 died: it is dropped from this simulation only.
    let units = spawned_units(&mut st, 5, &vec![300, 302], 100, "naruto");
    assert_eq!(units.len(), 1);
    assert_eq!(units[0].serial, 1);
    assert_eq!(st.spawned_units.len(), 3);
    forget_spawned_unit(&mut st, 5, 1);
    assert!(spawned_unit_ids(&mut st, 5, &vec![300, 302], 100, "naruto").is_empty());
    assert_eq!(spawned_unit_ids(&mut st, 6, &vec![300], 100, "naruto"), vec![300]);
}

#[test]
fn effects_of_cancelled_units_stop_until_tracked_again() {
    let mut st: ModState<u32> = ModState::new();
    track_spawned_unit(&mut st, 5, 10, 100, 300, "naruto", true);
    assert!(spawned_unit_effect_is_active(&st, 5, 11, 100, 300, Some(true)));
    assert!(!spawned_unit_effect_is_active(&st, 5, 11, 100, 300, Some(false)));
    // A unit whose entity is not there yet counts only on its creation tick.
    assert!(spawned_unit_effect_is_active(&st, 5, 10, 100, 300, None));
    assert!(!spawned_unit_effect_is_active(&st, 5, 11, 100, 300, None));
    assert!(!spawned_unit_effect_is_active(&st, 5, 11, 101, 300, Some(true)));
    assert!(!cancel_spawned_unit_effect(&mut st, 5, 100, 300, false));
    assert!(!spawned_unit_effect_is_active(&st, 5, 11, 100, 300, Some(true)));
    cancel_spawned_unit_effect(&mut st, 5, 100, 300, false);
    assert_eq!(st.cancelled_effects.len(), 1);
    track_spawned_unit(&mut st, 5, 20, 100, 300, "naruto", true);
    assert!(spawned_unit_effect_is_active(&st, 5, 21, 100, 300, Some(true)));
    // Destroying on trigger untracks the unit.
    assert!(consume_spawned_unit_target(&mut st, 5, 100, 300, true));
    assert!(st.spawned_units.is_empty());
    assert!(!spawned_unit_effect_is_active(&st, 5, 21, 100, 300, Some(true)));
}

#[test]
fn attack_gate() {
    let mut st: ModState<u32> = ModState::new();
    track_spawned_unit(&mut st, 5, 10, 100, 300, "naruto", true);
    assert_eq!(set_spawn_attack_enabled(&mut st, 5, 300, false), GateActions { block_attack: true, queue_with_caster: Some(100) });
    // Queued once only.
    assert_eq!(set_spawn_attack_enabled(&mut st, 5, 300, false), GateActions { block_attack: true, queue_with_caster: None });
    assert!(maintain_spawn_attack_gate(&mut st, 5, 100, 300, Some(true)));
    assert!(!maintain_spawn_attack_gate(&mut st, 5, 100, 300, None));
    assert!(!st.spawned_units[0].1.attack_gate_queued);
    assert_eq!(set_spawn_attack_enabled(&mut st, 5, 300, true), GateActions { block_attack: false, queue_with_caster: None });
    assert!(!maintain_spawn_attack_gate(&mut st, 5, 100, 300, Some(true)));
    assert_eq!(set_spawn_attack_enabled(&mut st, 5, 999, false), GateActions { block_attack: true, queue_with_caster: None });
    assert!(!maintain_spawn_attack_gate(&mut st, 5, 100, 999, Some(true)));
}

#[test]
fn aggregation_keeps_first_hits() {
    let mut st: ModState<u32> = ModState::new();
    // Without a scope targets pass through.
    assert_eq!(aggregate_spawn_targets(&mut st, 5, vec![1, 1, 2]), vec![1, 1, 2]);
    let half = 0.5f32.to_bits();
    begin_spawn_aggregation(&mut st, 5, false, half);
    assert_eq!(aggregate_spawn_targets(&mut st, 5, vec![1, 2, 1]), vec![1, 2]);
    assert_eq!(spawn_effect_multiplier(&st, 5, 1), Some(half));
    assert_eq!(spawn_effect_multiplier(&st, 5, 2), None);
    assert_eq!(aggregate_spawn_targets(&mut st, 5, vec![2, 3]), vec![3]);
    assert_eq!(spawn_effect_multiplier(&st, 5, 2), Some(half));
    assert_eq!(spawn_effect_multiplier(&st, 5, 3), None);
    assert_eq!(spawn_effect_multiplier(&st, 5, 1), None);
    // Nested scope with duplicates allowed.
    begin_spawn_aggregation(&mut st, 5, true, half);
    assert_eq!(aggregate_spawn_targets(&mut st, 5, vec![1, 1]), vec![1, 1]);
    assert_eq!(spawn_effect_multiplier(&st, 5, 1), Some(half));
    end_spawn_aggregation(&mut st, 5);
    assert_eq!(aggregate_spawn_targets(&mut st, 5, vec![1]), vec![]);
    end_spawn_aggregation(&mut st, 5);
    assert!(st.aggregation_scopes.is_empty());
    // Other simulations are not affected.
    assert_eq!(aggregate_spawn_targets(&mut st, 6, vec![4, 4]), vec![4, 4]);
}

#[test]
fn room_for_more_hits() {
    let mut st: ModState<u32> = ModState::new();
    assert!(hits_fit_for(&st, 5, usize::MAX));
    begin_spawn_aggregation(&mut st, 5, false, 0);
    assert!(hits_fit_for(&st, 5, usize::MAX));
    aggregate_spawn_targets(&mut st, 5, vec![1]);
    assert!(hits_fit_for(&st, 5, usize::MAX - 1));
    assert!(!hits_fit_for(&st, 5, usize::MAX));
    assert!(hits_fit_for(&st, 6, usize::MAX));
}
