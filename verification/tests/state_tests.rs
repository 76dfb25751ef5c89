use my_mod::state::{
    add_counter, bind_entity, clear_player, clear_sim, counter_at_least, counter_value, flag_is_set, init,
    level_for_entity, next_persistent_modify_stats_stack, persistence_diagnostics, player_for_entity,
    refresh_persistent_state, register_entity, remember_base_stat, reset_counter, restore_persistent_base_stat,
    set_flag, takedown_fits_for, takedown_stack_delta, update_player_lifecycle, ModState,
};
use my_mod::spawns::track_spawned_unit;
use my_mod::world::{KillLogEntry, PlayerInfo, Stat};

fn player(id: usize, champion: Option<usize>, team: usize, lane: Option<u32>) -> PlayerInfo {
    PlayerInfo { id, champion_id: champion, level: 7, team, lane }
}

fn stat(stack: usize) -> Stat {
    Stat { attack: 90, magic_power: 0, hp: 1300, defence: 35, magic_resistance: 30, move_speed: 1000, hp_regen: 2, stack, crit_chance: 0 }
}

#[test]
fn counters_add_read_and_reset() {
    let mut st: ModState<u32> = ModState::new();
    let players = vec![player(1, Some(100), 0, Some(2))];
    assert_eq!(counter_value(&st, &players, 5, 100, "combo"), 0);
    add_counter(&mut st, &players, 5, 100, "combo", 3);
    add_counter(&mut st, &players, 5, 100, "combo", 4);
    assert_eq!(counter_value(&st, &players, 5, 100, "combo"), 7);
    assert!(counter_at_least(&st, &players, 5, 100, "combo", 7));
    assert!(!counter_at_least(&st, &players, 5, 100, "combo", 8));
    add_counter(&mut st, &players, 5, 100, "combo", -20);
    assert_eq!(counter_value(&st, &players, 5, 100, "combo"), 0);
    add_counter(&mut st, &players, 5, 100, "combo", i64::MAX);
    add_counter(&mut st, &players, 5, 100, "combo", 1);
    assert_eq!(counter_value(&st, &players, 5, 100, "combo"), i64::MAX);
    reset_counter(&mut st, &players, 5, 100, "combo");
    assert_eq!(counter_value(&st, &players, 5, 100, "combo"), 0);
    // An unowned entity reads zero and changes nothing.
    add_counter(&mut st, &players, 5, 999, "combo", 3);
    assert_eq!(counter_value(&st, &players, 5, 999, "combo"), 0);
}

#[test]
fn flags_read_back() {
    let mut st: ModState<u32> = ModState::new();
    let players = vec![player(1, Some(100), 0, None)];
    assert!(!flag_is_set(&st, &players, 5, 100, "serious"));
    set_flag(&mut st, &players, 5, 100, "serious", true);
    assert!(flag_is_set(&st, &players, 5, 100, "serious"));
    set_flag(&mut st, &players, 5, 100, "serious", false);
    assert!(!flag_is_set(&st, &players, 5, 100, "serious"));
}

#[test]
fn ownership_resolution_through_bindings_and_spawned_units() {
    let mut st: ModState<u32> = ModState::new();
    let players = vec![player(1, Some(100), 0, None), player(2, None, 1, None)];
    assert_eq!(player_for_entity(&st, &players, 5, 100), Some(1));
    assert_eq!(player_for_entity(&st, &players, 5, 200), None);
    bind_entity(&mut st, 5, 2, 200);
    assert_eq!(player_for_entity(&st, &players, 5, 200), Some(2));
    assert_eq!(player_for_entity(&st, &players, 6, 200), None);
    // A clone spawned by the champion resolves to the champion's player.
    track_spawned_unit(&mut st, 5, 10, 100, 300, "naruto", true);
    assert_eq!(player_for_entity(&st, &players, 5, 300), Some(1));
    // A clone of the clone too.
    track_spawned_unit(&mut st, 5, 10, 300, 301, "naruto", true);
    assert_eq!(player_for_entity(&st, &players, 5, 301), Some(1));
    assert_eq!(level_for_entity(&st, &players, 5, 301), 7);
    assert_eq!(level_for_entity(&st, &players, 5, 999), 1);
}

#[test]
fn owner_cycles_resolve_to_nobody() {
    let mut st: ModState<u32> = ModState::new();
    let players = vec![player(1, Some(100), 0, None)];
    track_spawned_unit(&mut st, 5, 10, 401, 400, "loop", true);
    track_spawned_unit(&mut st, 5, 10, 400, 401, "loop", true);
    assert_eq!(player_for_entity(&st, &players, 5, 400), None);
}

#[test]
fn identity_change_resets_player_state() {
    let mut st: ModState<u32> = ModState::new();
    let players = vec![player(1, Some(100), 0, None)];
    init(&mut st, 5, 1, 100, "saitama");
    add_counter(&mut st, &players, 5, 100, "combo", 4);
    init(&mut st, 5, 1, 100, "saitama");
    assert_eq!(counter_value(&st, &players, 5, 100, "combo"), 4);
    assert_eq!(persistence_diagnostics(&st, 5, 1).4, 0);
    init(&mut st, 5, 1, 100, "naruto");
    assert_eq!(counter_value(&st, &players, 5, 100, "combo"), 0);
    assert_eq!(persistence_diagnostics(&st, 5, 1).4, 1);
    register_entity(&mut st, &players, 5, 100, "paragon");
    assert_eq!(persistence_diagnostics(&st, 5, 1).4, 2);
}

#[test]
fn persistent_stack_builds_on_the_stored_value() {
    let mut st: ModState<u32> = ModState::new();
    let players = vec![player(1, Some(100), 0, None)];
    assert_eq!(next_persistent_modify_stats_stack(&mut st, &players, 5, 100, 2, 3), 5);
    // After a respawn the live stack is 0, the stored one still counts.
    assert_eq!(next_persistent_modify_stats_stack(&mut st, &players, 5, 100, 0, 3), 8);
    assert_eq!(next_persistent_modify_stats_stack(&mut st, &players, 5, 100, 0, -20), 0);
    // Without a player the live stack is used.
    assert_eq!(next_persistent_modify_stats_stack(&mut st, &players, 5, 999, 4, 3), 7);
}

#[test]
fn base_stat_survives_respawn() {
    let mut st: ModState<u32> = ModState::new();
    let players = vec![player(1, Some(100), 0, None)];
    remember_base_stat(&mut st, &players, 5, 100, stat(6), true);
    assert_eq!(persistence_diagnostics(&st, 5, 1).0, 1);
    let gone = update_player_lifecycle(&mut st, 5, 1, None, false);
    assert!(!gone.top_up_buffs);
    assert!(gone.restore_base_stat.is_none());
    // Back alive with a new entity: the remembered base stat comes back.
    let back = update_player_lifecycle(&mut st, 5, 1, Some(101), true);
    assert!(back.top_up_buffs);
    assert_eq!(back.restore_base_stat.map(|s| s.stack), Some(6));
    // Alive on the same entity: only the buffs are topped up.
    let steady = update_player_lifecycle(&mut st, 5, 1, Some(101), true);
    assert!(steady.top_up_buffs);
    assert!(steady.restore_base_stat.is_none());
    // Dead, then alive again on the same entity: a respawn.
    let dead = update_player_lifecycle(&mut st, 5, 1, Some(101), false);
    assert!(!dead.top_up_buffs);
    assert!(dead.restore_base_stat.is_none());
    let again = update_player_lifecycle(&mut st, 5, 1, Some(101), true);
    assert_eq!(again.restore_base_stat.map(|s| s.stack), Some(6));
    assert_eq!(restore_persistent_base_stat(&st, 5, 1).map(|s| s.stack), Some(6));
    assert_eq!(refresh_persistent_state(&st, 5, 1, 2).map(|s| s.attack), Some(90));
    assert!(refresh_persistent_state(&st, 5, 1, 6).is_none());
    assert!(refresh_persistent_state(&st, 5, 2, 0).is_none());
}

#[test]
fn takedowns_are_counted_once() {
    let mut st: ModState<u32> = ModState::new();
    let players = vec![player(1, Some(100), 0, Some(2))];
    let log = vec![
        Some(KillLogEntry { killer_team: 0, killer_position: 2, assist_positions: vec![] }),
        Some(KillLogEntry { killer_team: 0, killer_position: 1, assist_positions: vec![3, 2] }),
        Some(KillLogEntry { killer_team: 1, killer_position: 2, assist_positions: vec![] }),
        None,
        Some(KillLogEntry { killer_team: 0, killer_position: 4, assist_positions: vec![1] }),
    ];
    assert_eq!(takedown_stack_delta(&mut st, &players, 5, 100, "ascension", &log), 2);
    assert_eq!(takedown_stack_delta(&mut st, &players, 5, 100, "ascension", &log), 0);
    let mut longer = log;
    longer.push(Some(KillLogEntry { killer_team: 0, killer_position: 2, assist_positions: vec![] }));
    assert_eq!(takedown_stack_delta(&mut st, &players, 5, 100, "ascension", &longer), 1);
    let laneless = vec![player(1, Some(100), 0, None)];
    assert_eq!(takedown_stack_delta(&mut st, &laneless, 5, 100, "other", &longer), 0);
}

#[test]
fn takedown_counts_fit_for_ordinary_logs() {
    let mut st: ModState<u32> = ModState::new();
    let players = vec![player(1, Some(100), 0, Some(2))];
    let log = vec![
        Some(KillLogEntry { killer_team: 0, killer_position: 2, assist_positions: vec![] }),
        None,
        Some(KillLogEntry { killer_team: 1, killer_position: 2, assist_positions: vec![] }),
    ];
    assert!(takedown_fits_for(&st, &players, 5, 100, "ascension", &log));
    assert!(takedown_fits_for(&st, &players, 5, 999, "ascension", &log));
    assert!(takedown_fits_for(&st, &players, 5, 100, "ascension", &Vec::new()));
    assert_eq!(takedown_stack_delta(&mut st, &players, 5, 100, "ascension", &log), 1);
    assert!(takedown_fits_for(&st, &players, 5, 100, "ascension", &log));
}

#[test]
fn clearing_a_simulation_keeps_the_others() {
    let mut st: ModState<u32> = ModState::new();
    let players = vec![player(1, Some(100), 0, None)];
    add_counter(&mut st, &players, 5, 100, "combo", 2);
    add_counter(&mut st, &players, 6, 100, "combo", 9);
    bind_entity(&mut st, 5, 1, 200);
    bind_entity(&mut st, 6, 1, 200);
    clear_sim(&mut st, 5);
    assert_eq!(counter_value(&st, &players, 5, 100, "combo"), 0);
    assert_eq!(counter_value(&st, &players, 6, 100, "combo"), 9);
    assert_eq!(player_for_entity(&st, &players, 5, 200), None);
    assert_eq!(player_for_entity(&st, &players, 6, 200), Some(1));
    assert_eq!(persistence_diagnostics(&st, 5, 1), (0, 0, 0, 0, 0));
}

#[test]
fn clearing_a_player() {
    let mut st: ModState<u32> = ModState::new();
    let players = vec![player(1, Some(100), 0, None), player(2, Some(110), 1, None)];
    add_counter(&mut st, &players, 5, 100, "combo", 2);
    add_counter(&mut st, &players, 5, 110, "combo", 3);
    bind_entity(&mut st, 5, 1, 200);
    clear_player(&mut st, 5, 1);
    assert_eq!(counter_value(&st, &players, 5, 100, "combo"), 0);
    assert_eq!(counter_value(&st, &players, 5, 110, "combo"), 3);
    assert_eq!(player_for_entity(&st, &players, 5, 200), None);
}
