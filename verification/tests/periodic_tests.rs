use my_mod::periodic::{
    advance_periodic, clear_periodics, clear_periodics_for_source, due_periodics, register_delayed, register_periodic,
    run_due_periodics, PeriodicStore,
};

fn godless(store: &mut PeriodicStore, sim: usize, tick: usize, target: usize) {
    register_periodic(store, sim, tick, true, 7, target, 1, 240, 20, true, false, 1, true);
}

#[test]
fn first_instant_channel_is_due_at_once() {
    let mut store = PeriodicStore::new();
    godless(&mut store, 5, 100, 9);
    let due = due_periodics(&mut store, 5, &vec![9], 7, 100);
    assert_eq!(due.len(), 1);
    assert_eq!(due[0].target_id, 9);
    assert_eq!(due[0].next_tick, 100);
    assert_eq!(due[0].end_tick, 340);
    assert_eq!(due[0].interval, 20);
    assert_eq!(due[0].stacks, 1);
}

#[test]
fn channel_without_first_instant_waits_one_interval() {
    let mut store = PeriodicStore::new();
    register_periodic(&mut store, 5, 100, true, 7, 9, 1, 240, 0, false, false, 1, false);
    assert_eq!(store.instances[0].interval, 1);
    assert_eq!(store.instances[0].next_tick, 101);
    assert!(due_periodics(&mut store, 5, &vec![9], 7, 100).is_empty());
    assert_eq!(due_periodics(&mut store, 5, &vec![9], 7, 101).len(), 1);
}

#[test]
fn zero_duration_or_missing_target_registers_nothing() {
    let mut store = PeriodicStore::new();
    register_periodic(&mut store, 5, 100, true, 7, 9, 1, 0, 20, true, false, 1, true);
    register_periodic(&mut store, 5, 100, false, 7, 9, 1, 240, 20, true, false, 1, true);
    assert!(store.instances.is_empty());
}

#[test]
fn re_registration_stacks_and_refreshes() {
    let mut store = PeriodicStore::new();
    register_periodic(&mut store, 5, 100, true, 7, 9, 1, 240, 20, true, true, 2, false);
    register_periodic(&mut store, 5, 150, true, 7, 9, 1, 240, 20, true, true, 2, false);
    register_periodic(&mut store, 5, 160, true, 7, 9, 1, 240, 20, true, true, 2, true);
    assert_eq!(store.instances.len(), 1);
    assert_eq!(store.instances[0].stacks, 2);
    assert_eq!(store.instances[0].end_tick, 400);
}

#[test]
fn advancing_and_pruning() {
    let mut store = PeriodicStore::new();
    godless(&mut store, 5, 100, 9);
    godless(&mut store, 5, 100, 10);
    advance_periodic(&mut store, 5, 7, 9, 1);
    assert_eq!(store.instances[0].next_tick, 120);
    assert_eq!(store.instances[1].next_tick, 100);
    // Target 10 died: its channel goes.
    let due = due_periodics(&mut store, 5, &vec![9], 7, 120);
    assert_eq!(due.len(), 1);
    assert_eq!(store.instances.len(), 1);
    // Past the end tick the channel ends.
    assert!(due_periodics(&mut store, 5, &vec![9], 7, 340).is_empty());
    assert!(store.instances.is_empty());
}

#[test]
fn a_tick_round_advances_what_fired() {
    let mut store = PeriodicStore::new();
    godless(&mut store, 5, 100, 9);
    godless(&mut store, 5, 100, 10);
    let fired = run_due_periodics(&mut store, 5, &vec![9, 10], 7, 100);
    assert_eq!(fired.len(), 2);
    assert_eq!(store.instances[0].next_tick, 120);
    assert_eq!(store.instances[1].next_tick, 120);
    assert!(run_due_periodics(&mut store, 5, &vec![9, 10], 7, 110).is_empty());
}

#[test]
fn delayed_trigger_fires_once_after_the_delay() {
    let mut store = PeriodicStore::new();
    register_delayed(&mut store, 5, 100, true, 7, 9, 3, 30);
    assert_eq!(store.instances[0].end_tick, 131);
    assert!(due_periodics(&mut store, 5, &vec![9], 7, 129).is_empty());
    assert_eq!(due_periodics(&mut store, 5, &vec![9], 7, 130).len(), 1);
    advance_periodic(&mut store, 5, 7, 9, 3);
    assert!(due_periodics(&mut store, 5, &vec![9], 7, 131).is_empty());
}

#[test]
fn clearing_is_scoped_to_the_simulation() {
    let mut store = PeriodicStore::new();
    godless(&mut store, 5, 100, 9);
    godless(&mut store, 6, 100, 9);
    register_periodic(&mut store, 5, 100, true, 8, 9, 1, 240, 20, true, false, 1, true);
    clear_periodics_for_source(&mut store, 5, 7);
    assert_eq!(store.instances.len(), 2);
    clear_periodics(&mut store, 5);
    assert_eq!(store.instances.len(), 1);
    assert_eq!(store.instances[0].sim_id, 6);
    // Another simulation's channels are not pruned by this one's liveness.
    assert!(due_periodics(&mut store, 5, &vec![], 7, 100).is_empty());
    assert_eq!(store.instances.len(), 1);
}
