use my_mod::buff_persistence::{add_buff, modify_internal_cooldown, reconcile_buff_stacks, remove_buff, restore_persistent_buffs, LiveBuffAction};
use my_mod::state::{clear_sim, persistence_diagnostics, ModState, PersistedBuff};
use my_mod::world::{BuffInfo, PlayerInfo};

fn players() -> Vec<PlayerInfo> {
    vec![PlayerInfo { id: 1, champion_id: Some(100), level: 3, team: 0, lane: None }]
}

fn live(name: &str, duration: usize, timed: bool) -> BuffInfo {
    BuffInfo { name: name.to_string(), duration_tick: duration, timed }
}

fn copies(st: &ModState<u32>, name: &str) -> usize {
    st.persisted_buffs.iter().filter(|p| p.name == name).count()
}

#[test]
fn live_actions() {
    let mut st: ModState<u32> = ModState::new();
    let ps = players();
    let (a, _) = add_buff(&mut st, &ps, 5, 10, 100, true, 0, 1u32, "rage", true, 50, false, true, 3, true);
    assert_eq!(a, LiveBuffAction::Stack { max_count: 3, refresh: true });
    let (a, _) = add_buff(&mut st, &ps, 5, 10, 100, true, 1, 1u32, "rage", true, 50, false, false, 3, true);
    assert_eq!(a, LiveBuffAction::Replace);
    let (a, _) = add_buff(&mut st, &ps, 5, 10, 100, true, 1, 1u32, "aura", false, 0, false, false, 3, true);
    assert_eq!(a, LiveBuffAction::Keep);
    let (a, p) = add_buff(&mut st, &ps, 5, 10, 100, true, 0, 1u32, "aura", false, 0, false, false, 3, true);
    assert_eq!(a, LiveBuffAction::Add);
    assert_eq!(p, None);
    assert!(st.persisted_buffs.is_empty());
}

#[test]
fn persisted_copies_respect_the_cap() {
    let mut st: ModState<u32> = ModState::new();
    let ps = players();
    for i in 0..5u32 {
        let (_, p) = add_buff(&mut st, &ps, 5, 10, 100, true, 0, i, "ascension", false, 0, true, true, 3, false);
        assert_eq!(p, Some(1));
    }
    assert_eq!(copies(&st, "ascension"), 3);
    // At the cap the kept copies take the newest application.
    assert!(st.persisted_buffs.iter().all(|p| p.buff == 4));
    // Not stackable: one copy.
    add_buff(&mut st, &ps, 5, 10, 100, true, 0, 9, "serious", true, 450, true, false, 1, true);
    add_buff(&mut st, &ps, 5, 20, 100, true, 1, 9, "serious", true, 450, true, false, 1, true);
    assert_eq!(copies(&st, "serious"), 1);
    assert_eq!(st.persisted_buffs.iter().find(|p| p.name == "serious").unwrap().expires_at, Some(470));
    // Uncapped stacking keeps every copy.
    for _ in 0..4 {
        add_buff(&mut st, &ps, 5, 10, 100, true, 0, 1, "free", false, 0, true, true, 0, false);
    }
    assert_eq!(copies(&st, "free"), 4);
    assert_eq!(persistence_diagnostics(&st, 5, 1).0, 11);
}

#[test]
fn missed_owner_lookups_are_counted() {
    let mut st: ModState<u32> = ModState::new();
    let ps = players();
    add_buff(&mut st, &ps, 5, 10, 999, true, 0, 1, "rage", true, 50, true, false, 1, true);
    add_buff(&mut st, &ps, 5, 10, 999, true, 0, 1, "rage", true, 50, false, false, 1, true);
    assert_eq!(persistence_diagnostics(&st, 5, 1).3, 1);
    // Clearing a simulation leaves the count that every simulation reads.
    clear_sim(&mut st, 6);
    clear_sim(&mut st, 5);
    assert_eq!(persistence_diagnostics(&st, 6, 1).3, 1);
}

#[test]
fn reconcile_restores_only_the_shortfall() {
    let mut st: ModState<u32> = ModState::new();
    let ps = players();
    for i in 0..3u32 {
        add_buff(&mut st, &ps, 5, 10, 100, true, 0, i, "rage", true, 100, true, true, 5, false);
    }
    let plan = reconcile_buff_stacks(&mut st, 5, 1, "rage", 40, 1);
    assert_eq!(plan, vec![(1, Some(70)), (2, Some(70))]);
    // The restored copies are now live: nothing more to do.
    assert!(reconcile_buff_stacks(&mut st, 5, 1, "rage", 40, 3).is_empty());
    assert_eq!(persistence_diagnostics(&st, 5, 1).2, 2);
    // Past their expiry the copies are pruned.
    assert!(reconcile_buff_stacks(&mut st, 5, 1, "rage", 110, 0).is_empty());
    assert!(st.persisted_buffs.is_empty());
    // No state for another player.
    assert!(reconcile_buff_stacks(&mut st, 5, 2, "rage", 40, 0).is_empty());
}

#[test]
fn restore_lists_distinct_names_in_order() {
    let mut st: ModState<u32> = ModState::new();
    let ps = players();
    add_buff(&mut st, &ps, 5, 10, 100, true, 0, 1, "b", false, 0, true, true, 5, false);
    add_buff(&mut st, &ps, 5, 10, 100, true, 0, 1, "a", false, 0, true, true, 5, false);
    add_buff(&mut st, &ps, 5, 10, 100, true, 0, 1, "b", false, 0, true, true, 5, false);
    add_buff(&mut st, &ps, 5, 10, 100, true, 0, 1, "t", true, 5, true, true, 5, false);
    assert_eq!(restore_persistent_buffs(&mut st, 5, 1, 12), vec!["b".to_string(), "a".to_string(), "t".to_string()]);
    assert_eq!(restore_persistent_buffs(&mut st, 5, 1, 15), vec!["b".to_string(), "a".to_string()]);
    assert!(restore_persistent_buffs(&mut st, 5, 2, 15).is_empty());
}

#[test]
fn removed_buff_is_forgotten() {
    let mut st: ModState<u32> = ModState::new();
    let ps = players();
    add_buff(&mut st, &ps, 5, 10, 100, true, 0, 1, "serious", true, 450, true, false, 1, true);
    add_buff(&mut st, &ps, 5, 10, 100, true, 0, 1, "other", true, 450, true, false, 1, true);
    remove_buff(&mut st, &ps, 5, 100, "serious");
    assert!(reconcile_buff_stacks(&mut st, 5, 1, "serious", 20, 0).is_empty());
    assert_eq!(reconcile_buff_stacks(&mut st, 5, 1, "other", 20, 0).len(), 1);
}

#[test]
fn internal_cooldown_shifts() {
    let buffs = vec![live("cd", 10, true), live("x", 10, true), live("cd", 3, true), live("cd", 8, false)];
    assert_eq!(modify_internal_cooldown(&buffs, "cd", 5), Some(vec![(0, 15), (2, 8)]));
    assert_eq!(modify_internal_cooldown(&buffs, "cd", -5), Some(vec![(0, 5)]));
    assert_eq!(modify_internal_cooldown(&buffs, "nothing", -5), None);
    assert_eq!(modify_internal_cooldown(&buffs, "cd", i32::MIN), Some(vec![]));
}

#[test]
fn removing_forgets_copies_even_without_a_record() {
    let mut st: ModState<u32> = ModState::new();
    let ps = players();
    st.persisted_buffs.push(PersistedBuff { sim_id: 5, player_id: 1, name: "serious".to_string(), buff: 1, expires_at: None });
    st.persisted_buffs.push(PersistedBuff { sim_id: 5, player_id: 1, name: "other".to_string(), buff: 1, expires_at: None });
    remove_buff(&mut st, &ps, 5, 100, "serious");
    assert_eq!(copies(&st, "serious"), 0);
    assert_eq!(copies(&st, "other"), 1);
}

#[test]
fn remembered_copies_are_not_expired() {
    let mut st: ModState<u32> = ModState::new();
    let ps = players();
    add_buff(&mut st, &ps, 5, 10, 100, true, 0, 1, "rage", true, 5, true, true, 5, false);
    add_buff(&mut st, &ps, 5, 30, 100, true, 0, 2, "rage", true, 5, true, true, 5, false);
    assert_eq!(copies(&st, "rage"), 1);
    assert!(st.persisted_buffs.iter().all(|p| p.expires_at.map_or(true, |e| e > 30)));
}
