//! Properties that relate several operations of the library: what a read
//! gives back after a write, what a second call adds to a first one, and
//! what stays untouched.
use vstd::prelude::*;
use crate::state::{
    ModState, add_counter_post, reset_counter_post, set_flag_post, counter_read, flag_read,
    owner_of, non_negative, sat_add_i64, bind_post, champion_owner, next_stack_post, spec_next_stack,
    remember_post, lifecycle_post, refresh_result, record_of, takedown_post, LifecycleActions,
};
use crate::state::{cleared_sim, default_record, counter_of, flag_of, init_post, identity_changes, sat_inc, unit_not_sim, PersistedBuff};
use crate::buff_persistence::{
    spec_persist_application, same_name_pred, cap_rewrite, pruned, unexpired_pred, reconcile_post,
    remove_buff_post, not_named_pred, no_copies, restore_post, is_player_buff,
};
use crate::spawns::{cancel_post, effect_active, track_post, other_cancel, cancel_of, unit_matches, is_first_unit};
use crate::spawns::{SpawnAggregationScope, aggregate_out, aggregated_scope, hits_before, occurrences};
use crate::periodic::{PeriodicInstance, spec_register_periodic, fresh_periodic, no_match, is_first_match, survives_pred, due_pred};
use crate::visuals::{tracker_started, other_tracker, spec_is_presentation_viable, ProjectileViewEffect, ended_trackers, trackers_after_update, tracker_updated, not_ended};
use crate::text::is_blank;
use crate::table::{lookup, lemma_lookup_some_member};
use crate::seq_util::{keys_unique, lemma_filter_keys_unique};
use crate::geometry::{spec_seeded_index, spec_chance_percent, spec_splitmix64, EntityPos, segment_arith_fits, segment_t, spec_distance_to_segment_sq, spec_distance_sq};
use vstd::arithmetic::div_mod::{lemma_mul_mod_noop_left, lemma_mul_mod_noop_right, lemma_small_mod};
use vstd::arithmetic::mul::lemma_mul_is_associative;
use crate::world::{PlayerInfo, Stat, KillLogEntry, SimOrigin, ProjectileInfo};

verus! {

broadcast use {vstd::seq_lib::group_seq_properties, vstd::seq::group_seq_axioms};

/// Reading a counter right after adding `delta` to it gives the earlier
/// reading plus `delta` (saturating, never below zero) when a player owns
/// the entity; every other counter reads as before.
pub proof fn law_counter_read_after_add<B>(
    a: ModState<B>,
    b: ModState<B>,
    players: Seq<PlayerInfo>,
    sim_id: usize,
    entity_id: usize,
    name: Seq<char>,
    delta: i64,
    other: Seq<char>,
)
    requires
        add_counter_post(a, b, players, sim_id, entity_id, name, delta),
    ensures
        counter_read(b, players, sim_id, entity_id, name) == if owner_of(a, players, sim_id, entity_id) is Some {
            non_negative(sat_add_i64(counter_read(a, players, sim_id, entity_id, name) as int, delta as int))
        } else {
            0
        },
        other != name ==> counter_read(b, players, sim_id, entity_id, other) == counter_read(a, players, sim_id, entity_id, other),
{
    if let Some(p) = owner_of(a, players, sim_id, entity_id) {
        assert(lookup(b.counters@, (sim_id, p, name)) == Some(non_negative(sat_add_i64(counter_read(a, players, sim_id, entity_id, name) as int, delta as int))));
        if other != name {
            assert(lookup(b.counters@, (sim_id, p, other)) == lookup(a.counters@, (sim_id, p, other)));
        }
    }
}

/// A counter reads zero right after it was reset.
pub proof fn law_counter_read_after_reset<B>(
    a: ModState<B>,
    b: ModState<B>,
    players: Seq<PlayerInfo>,
    sim_id: usize,
    entity_id: usize,
    name: Seq<char>,
)
    requires
        reset_counter_post(a, b, players, sim_id, entity_id, name),
    ensures
        counter_read(b, players, sim_id, entity_id, name) == 0,
{
    if let Some(p) = owner_of(a, players, sim_id, entity_id) {
        assert(lookup(b.counters@, (sim_id, p, name)) is None);
    }
}

/// A flag reads the value it was just set to, when a player owns the
/// entity (false otherwise).
pub proof fn law_flag_read_after_set<B>(
    a: ModState<B>,
    b: ModState<B>,
    players: Seq<PlayerInfo>,
    sim_id: usize,
    entity_id: usize,
    name: Seq<char>,
    value: bool,
)
    requires
        set_flag_post(a, b, players, sim_id, entity_id, name, value),
    ensures
        flag_read(b, players, sim_id, entity_id, name) == (owner_of(a, players, sim_id, entity_id) is Some && value),
{
    if let Some(p) = owner_of(a, players, sim_id, entity_id) {
        assert(lookup(b.flags@, (sim_id, p, name)) == Some(value));
    }
}

/// Once an entity is bound to a player, it resolves to that player, unless
/// it is some player's champion (the champion's player comes first).
pub proof fn law_bound_entity_resolves<B>(
    a: ModState<B>,
    b: ModState<B>,
    players: Seq<PlayerInfo>,
    sim_id: usize,
    player_id: usize,
    entity_id: usize,
)
    requires
        bind_post(a, b, sim_id, player_id, entity_id),
    ensures
        owner_of(b, players, sim_id, entity_id) == match champion_owner(players, entity_id) {
            Some(q) => Some(q),
            None => Some(player_id),
        },
{
    assert(lookup(b.entity_owners@, (sim_id, entity_id)) == Some(player_id));
}

/// Once a persistent stack was stored, the next application builds on it,
/// whatever the live stack of the (possibly respawned) entity is.
pub proof fn law_persisted_stack_authoritative<B>(
    a: ModState<B>,
    b: ModState<B>,
    c: ModState<B>,
    players: Seq<PlayerInfo>,
    sim_id: usize,
    entity_id: usize,
    current1: usize,
    delta1: i64,
    r1: usize,
    current2: usize,
    delta2: i64,
    r2: usize,
)
    requires
        next_stack_post(a, b, players, sim_id, entity_id, current1, delta1, r1),
        next_stack_post(b, c, players, sim_id, entity_id, current2, delta2, r2),
        owner_of(a, players, sim_id, entity_id) is Some,
    ensures
        r2 == spec_next_stack(r1, delta2),
{
    let p = owner_of(a, players, sim_id, entity_id)->0;
    assert(owner_of(b, players, sim_id, entity_id) == Some(p));
    assert(record_of(b, sim_id, p).persistent_modify_stats_stack == Some(r1));
}

/// A remembered base stat is kept by the player through a respawn (a new
/// entity, or none for a while) and is re-applied when the live stack is
/// below the remembered one.
pub proof fn law_base_stat_survives_respawn<B>(
    a: ModState<B>,
    b: ModState<B>,
    c: ModState<B>,
    players: Seq<PlayerInfo>,
    sim_id: usize,
    entity_id: usize,
    stat: Stat,
    entity_alive: bool,
    player_id: usize,
    new_entity: Option<usize>,
    alive: bool,
    r: LifecycleActions,
    current_stack: usize,
)
    requires
        remember_post(a, b, players, sim_id, entity_id, stat, entity_alive),
        owner_of(a, players, sim_id, entity_id) == Some(player_id),
        lifecycle_post(b, c, sim_id, player_id, new_entity, alive, r),
        current_stack < stat.stack,
    ensures
        record_of(c, sim_id, player_id).persistent_base_stat == Some(stat),
        refresh_result(c, sim_id, player_id, current_stack) == Some(stat),
        alive && new_entity is Some && (new_entity->0 != entity_id || !entity_alive) ==> r.restore_base_stat == Some(stat),
{
}

/// Kill-log entries are counted once: asking again about the same kill log
/// gives nothing more.
pub proof fn law_takedowns_counted_once<B>(
    a: ModState<B>,
    b: ModState<B>,
    c: ModState<B>,
    players: Seq<PlayerInfo>,
    sim_id: usize,
    entity_id: usize,
    counter_name: Seq<char>,
    log: Seq<Option<KillLogEntry>>,
    r1: u32,
    r2: u32,
)
    requires
        log.len() <= usize::MAX,
        log.len() <= i64::MAX,
        takedown_post(a, b, players, sim_id, entity_id, counter_name, log, r1),
        takedown_post(b, c, players, sim_id, entity_id, counter_name, log, r2),
    ensures
        r2 == 0,
{
    if let Some(p) = owner_of(a, players, sim_id, entity_id) {
        let key = crate::state::kill_log_index_key(counter_name);
        assert(owner_of(b, players, sim_id, entity_id) == Some(p));
        if lookup(b.counters@, (sim_id, p, key)) != lookup(a.counters@, (sim_id, p, key)) {
            assert(lookup(b.counters@, (sim_id, p, key)) == Some(log.len() as i64));
            assert((log.len() as i64) as int == log.len());
            assert(crate::state::counter_of(b, sim_id, p, key) == log.len() as i64);
        }
    }
}


/// Clearing a simulation forgets the records, counters, flags and entity
/// bindings of its players (they read as fresh), its entities then resolve
/// only through the champions; every other simulation keeps its own.
pub proof fn law_clear_sim_isolation<B>(
    a: ModState<B>,
    b: ModState<B>,
    players: Seq<PlayerInfo>,
    sim_id: usize,
    other_sim: usize,
    player_id: usize,
    entity_id: usize,
    name: Seq<char>,
)
    requires
        cleared_sim(a, b, sim_id),
    ensures
        record_of(b, sim_id, player_id) == default_record(),
        counter_of(b, sim_id, player_id, name) == 0,
        !flag_of(b, sim_id, player_id, name),
        owner_of(b, players, sim_id, entity_id) == champion_owner(players, entity_id),
        other_sim != sim_id ==> record_of(b, other_sim, player_id) == record_of(a, other_sim, player_id),
        other_sim != sim_id ==> counter_of(b, other_sim, player_id, name) == counter_of(a, other_sim, player_id, name),
        other_sim != sim_id ==> flag_of(b, other_sim, player_id, name) == flag_of(a, other_sim, player_id, name),
        other_sim != sim_id ==> lookup(b.entity_owners@, (other_sim, entity_id)) == lookup(a.entity_owners@, (other_sim, entity_id)),
{
    assert(lookup(b.records@, (sim_id, player_id)) is None);
    assert(lookup(b.counters@, (sim_id, player_id, name)) is None);
    assert(lookup(b.flags@, (sim_id, player_id, name)) is None);
    assert(lookup(b.entity_owners@, (sim_id, entity_id)) is None);
    assert(lookup(b.records@, (other_sim, player_id)) == if other_sim == sim_id { None } else { lookup(a.records@, (other_sim, player_id)) });
    assert(lookup(b.counters@, (other_sim, player_id, name)) == if other_sim == sim_id { None } else { lookup(a.counters@, (other_sim, player_id, name)) });
    assert(lookup(b.flags@, (other_sim, player_id, name)) == if other_sim == sim_id { None } else { lookup(a.flags@, (other_sim, player_id, name)) });
    assert(lookup(b.entity_owners@, (other_sim, entity_id)) == if other_sim == sim_id { None } else { lookup(a.entity_owners@, (other_sim, entity_id)) });
    let units = b.spawned_units@;
    assert forall|i: int| 0 <= i < units.len() implies (#[trigger] units[i]).0 != sim_id by {
        a.spawned_units@.lemma_filter_pred(unit_not_sim(sim_id), i);
    }
    assert(!exists|i: int| crate::state::is_unit_at(units, i, sim_id, entity_id));
}

/// Re-registering the same champion keeps the player's state; a different
/// champion starts it afresh (counters read zero, flags are unset) and
/// counts one more identity change.
pub proof fn law_identity_change_resets_state<B>(
    a: ModState<B>,
    b: ModState<B>,
    sim_id: usize,
    player_id: usize,
    entity_id: usize,
    champion_key: Seq<char>,
    name: Seq<char>,
)
    requires
        init_post(a, b, sim_id, player_id, entity_id, champion_key),
    ensures
        identity_changes(a, sim_id, player_id, champion_key) ==> {
            &&& counter_of(b, sim_id, player_id, name) == 0
            &&& !flag_of(b, sim_id, player_id, name)
            &&& record_of(b, sim_id, player_id).identity_change_count == sat_inc(record_of(a, sim_id, player_id).identity_change_count)
            &&& record_of(b, sim_id, player_id).persistent_base_stat is None
        },
        !identity_changes(a, sim_id, player_id, champion_key) ==> {
            &&& counter_of(b, sim_id, player_id, name) == counter_of(a, sim_id, player_id, name)
            &&& flag_of(b, sim_id, player_id, name) == flag_of(a, sim_id, player_id, name)
            &&& record_of(b, sim_id, player_id) == crate::state::PlayerRecord { last_entity_id: Some(entity_id), ..record_of(a, sim_id, player_id) }
        },
{
    if identity_changes(a, sim_id, player_id, champion_key) {
        assert(lookup(b.counters@, (sim_id, player_id, name)) is None);
        assert(lookup(b.flags@, (sim_id, player_id, name)) is None);
    }
}

/// Remembering an application never leaves more than `cap` copies of the
/// buff for the player (when the buff is capped).
pub proof fn law_persisted_copies_capped<B>(
    s: Seq<PersistedBuff<B>>,
    sim_id: usize,
    player_id: usize,
    name: Seq<char>,
    stored_name: String,
    buff: B,
    expires_at: Option<usize>,
    cap: usize,
    now: usize,
)
    requires
        stored_name@ == name,
        cap != 0,
    ensures
        spec_persist_application(s, sim_id, player_id, name, stored_name, buff, expires_at, cap, now).filter(
            same_name_pred::<B>(sim_id, player_id, name),
        ).len() <= cap,
{
    let kept = pruned(s, sim_id, player_id, now);
    let pred = same_name_pred::<B>(sim_id, player_id, name);
    if kept.filter(pred).len() >= cap {
        lemma_cap_rewrite_count(kept, sim_id, player_id, name, cap, buff, expires_at);
    } else {
        let fresh = PersistedBuff { sim_id, player_id, name: stored_name, buff, expires_at };
        kept.lemma_filter_len_push(pred, fresh);
    }
}

proof fn lemma_cap_rewrite_count<B>(
    s: Seq<PersistedBuff<B>>,
    sim_id: usize,
    player_id: usize,
    name: Seq<char>,
    cap: usize,
    buff: B,
    expires_at: Option<usize>,
)
    ensures
        cap_rewrite(s, sim_id, player_id, name, cap, buff, expires_at).filter(same_name_pred::<B>(sim_id, player_id, name)).len()
            == if s.filter(same_name_pred::<B>(sim_id, player_id, name)).len() < cap {
            s.filter(same_name_pred::<B>(sim_id, player_id, name)).len()
        } else {
            cap as nat
        },
    decreases s.len(),
{
    let pred = same_name_pred::<B>(sim_id, player_id, name);
    if s.len() > 0 {
        let d = s.drop_last();
        let last = s.last();
        lemma_cap_rewrite_count(d, sim_id, player_id, name, cap, buff, expires_at);
        assert(s =~= d.push(last));
        d.lemma_filter_len_push(pred, last);
        let pre = cap_rewrite(d, sim_id, player_id, name, cap, buff, expires_at);
        pre.lemma_filter_len_push(pred, last);
        pre.lemma_filter_len_push(pred, PersistedBuff { buff, expires_at, ..last });
    }
}

proof fn lemma_filter_idempotent<A>(s: Seq<A>, p: spec_fn(A) -> bool)
    ensures
        s.filter(p).filter(p) == s.filter(p),
    decreases s.len(),
{
    if s.len() > 0 {
        let d = s.drop_last();
        lemma_filter_idempotent(d, p);
        assert(s =~= d.push(s.last()));
        d.lemma_filter_push(s.last(), p);
        d.filter(p).lemma_filter_push(s.last(), p);
    }
}

/// Reconciling is idempotent: once the missing copies were re-applied, a
/// second reconciliation (seeing them live) re-applies nothing.
pub proof fn law_reconcile_idempotent<B>(
    a: ModState<B>,
    b: ModState<B>,
    c: ModState<B>,
    sim_id: usize,
    player_id: usize,
    name: Seq<char>,
    now: usize,
    live1: usize,
    r1: Seq<(B, Option<usize>)>,
    live2: usize,
    r2: Seq<(B, Option<usize>)>,
)
    requires
        reconcile_post(a, b, sim_id, player_id, name, now, live1, r1),
        live2 == live1 + r1.len(),
        reconcile_post(b, c, sim_id, player_id, name, now, live2, r2),
    ensures
        r2.len() == 0,
{
    if lookup(a.records@, (sim_id, player_id)) is Some {
        lemma_filter_idempotent(a.persisted_buffs@, unexpired_pred::<B>(sim_id, player_id, now));
    }
}

/// An explicitly removed buff is not restored afterwards.
pub proof fn law_removed_buff_not_restored<B>(
    a: ModState<B>,
    b: ModState<B>,
    c: ModState<B>,
    players: Seq<PlayerInfo>,
    sim_id: usize,
    target_id: usize,
    player_id: usize,
    name: Seq<char>,
    now: usize,
    live_count: usize,
    r: Seq<(B, Option<usize>)>,
)
    requires
        remove_buff_post(a, b, players, sim_id, target_id, name),
        owner_of(a, players, sim_id, target_id) == Some(player_id),
        reconcile_post(b, c, sim_id, player_id, name, now, live_count, r),
    ensures
        r.len() == 0,
{
    if lookup(a.records@, (sim_id, player_id)) is Some {
        let kept = pruned(b.persisted_buffs@, sim_id, player_id, now);
        let same = same_name_pred::<B>(sim_id, player_id, name);
        assert forall|i: int| 0 <= i < kept.len() implies !same(#[trigger] kept[i]) by {
            assert(kept.contains(kept[i]));
            b.persisted_buffs@.lemma_filter_contains_rev(unexpired_pred::<B>(sim_id, player_id, now), kept[i]);
            let j = choose|j: int| 0 <= j < b.persisted_buffs@.len() && b.persisted_buffs@[j] == kept[i];
            a.persisted_buffs@.lemma_filter_pred(not_named_pred::<B>(sim_id, player_id, name), j);
        }
        kept.lemma_all_neg_filter_empty(same);
    }
}

/// A cancelled spawned-unit effect no longer applies, on any tick.
pub proof fn law_cancelled_effect_inactive<B>(
    a: ModState<B>,
    b: ModState<B>,
    sim_id: usize,
    owner_id: usize,
    entity_id: usize,
    destroy: bool,
    r: bool,
    tick: usize,
    entity_alive: Option<bool>,
)
    requires
        cancel_post(a, b, sim_id, owner_id, entity_id, destroy, r),
    ensures
        !effect_active(b, sim_id, tick, owner_id, entity_id, entity_alive),
{
    if !a.cancelled_effects@.contains((sim_id, owner_id, entity_id)) {
        assert(b.cancelled_effects@[b.cancelled_effects@.len() - 1] == (sim_id, owner_id, entity_id));
    }
}

proof fn lemma_first_unit_exists(s: Seq<(usize, crate::spawns::SpawnedUnit)>, i: int, sim_id: usize, owner_id: Option<usize>, entity_id: usize)
    requires
        0 <= i < s.len(),
        unit_matches(s[i], sim_id, owner_id, entity_id),
    ensures
        exists|j: int| is_first_unit(s, j, sim_id, owner_id, entity_id),
    decreases i,
{
    if exists|k: int| 0 <= k < i && unit_matches(#[trigger] s[k], sim_id, owner_id, entity_id) {
        let k = choose|k: int| 0 <= k < i && unit_matches(#[trigger] s[k], sim_id, owner_id, entity_id);
        lemma_first_unit_exists(s, k, sim_id, owner_id, entity_id);
    } else {
        assert(is_first_unit(s, i, sim_id, owner_id, entity_id));
    }
}

/// Tracking a unit again lifts an earlier cancellation: its effects apply
/// exactly while it is alive.
pub proof fn law_retracked_unit_active<B>(
    a: ModState<B>,
    b: ModState<B>,
    sim_id: usize,
    tick: usize,
    owner_id: usize,
    entity_id: usize,
    name: Seq<char>,
    attack_enabled: bool,
    r: u64,
    any_tick: usize,
    alive: bool,
)
    requires
        track_post(a, b, sim_id, tick, owner_id, entity_id, name, attack_enabled, r),
    ensures
        effect_active(b, sim_id, any_tick, owner_id, entity_id, Some(alive)) == alive,
{
    let key = (sim_id, owner_id, entity_id);
    if b.cancelled_effects@.contains(key) {
        let k = choose|k: int| 0 <= k < b.cancelled_effects@.len() && b.cancelled_effects@[k] == key;
        a.cancelled_effects@.lemma_filter_pred(other_cancel(sim_id, owner_id, entity_id), k);
    }
    let units = b.spawned_units@;
    lemma_first_unit_exists(units, units.len() - 1, sim_id, Some(owner_id), entity_id);
}


proof fn lemma_occurrences_push(s: Seq<usize>, x: usize, t: usize)
    ensures
        occurrences(s.push(x), t) == occurrences(s, t) + if x == t { 1nat } else { 0nat },
{
    assert(s.push(x).drop_last() =~= s);
}

/// Without duplicates, an aggregation round keeps a target exactly once
/// when the scope has not hit it before and the round hits it, and never
/// otherwise.
pub proof fn law_aggregate_first_hits(h: Seq<(usize, usize)>, targets: Seq<usize>, t: usize)
    ensures
        occurrences(aggregate_out(h, targets, false), t) == if hits_before(h, t) == 0 && occurrences(targets, t) > 0 {
            1nat
        } else {
            0nat
        },
    decreases targets.len(),
{
    if targets.len() > 0 {
        let d = targets.drop_last();
        let x = targets.last();
        law_aggregate_first_hits(h, d, t);
        assert(targets =~= d.push(x));
        lemma_occurrences_push(d, x, t);
        lemma_occurrences_push(aggregate_out(h, d, false), x, t);
    }
}

/// Within one scope, a target hit in an earlier round is not kept in a
/// later round (without duplicates).
pub proof fn law_aggregate_once_per_scope(
    a: SpawnAggregationScope,
    b: SpawnAggregationScope,
    first: Seq<usize>,
    second: Seq<usize>,
    t: usize,
)
    requires
        aggregated_scope(a, b, first),
        occurrences(first, t) > 0,
        hits_before(a.hit_counts@, t) + occurrences(first, t) <= usize::MAX,
    ensures
        occurrences(aggregate_out(b.hit_counts@, second, false), t) == 0,
{
    assert(lookup(b.hit_counts@, t) == Some((hits_before(a.hit_counts@, t) + occurrences(first, t)) as usize));
    law_aggregate_first_hits(b.hit_counts@, second, t);
}

/// A new channel registered to fire at once is due on the tick it was
/// registered, while its target lives.
pub proof fn law_first_instant_due(
    s: Seq<PeriodicInstance>,
    sim_id: usize,
    tick: usize,
    source_id: usize,
    target_id: usize,
    effect_id: u64,
    duration: u64,
    interval: u64,
    can_stack: bool,
    max_stacks: usize,
    refresh: bool,
    living: Seq<usize>,
)
    requires
        no_match(s, (sim_id, source_id, target_id, effect_id)),
        duration > 0,
        (tick as u64) < u64::MAX,
        living.contains(target_id),
    ensures
        spec_register_periodic(s, sim_id, tick, true, source_id, target_id, effect_id, duration, interval, true, can_stack, max_stacks, refresh)
            .filter(survives_pred(sim_id, tick as u64, living))
            .filter(due_pred(sim_id, source_id, tick as u64))
            .contains(fresh_periodic(sim_id, tick as u64, source_id, target_id, effect_id, duration, interval, true)),
{
    let key = (sim_id, source_id, target_id, effect_id);
    let fresh = fresh_periodic(sim_id, tick as u64, source_id, target_id, effect_id, duration, interval, true);
    assert(!exists|i: int| is_first_match(s, i, key));
    s.lemma_filter_push(fresh, survives_pred(sim_id, tick as u64, living));
    let kept = s.filter(survives_pred(sim_id, tick as u64, living));
    kept.lemma_filter_push(fresh, due_pred(sim_id, source_id, tick as u64));
    let due = kept.filter(due_pred(sim_id, source_id, tick as u64)).push(fresh);
    assert(due[due.len() - 1] == fresh);
}

/// A started tracker is the caster's only tracker of that projectile in the
/// simulation.
pub proof fn law_single_tracker<B>(
    a: ModState<B>,
    b: ModState<B>,
    sim_id: usize,
    origin: Option<SimOrigin>,
    caster_id: usize,
    name: Seq<char>,
    x: u64,
    y: u64,
    effect_name: Seq<char>,
    radius: u64,
    k: usize,
)
    requires
        tracker_started(a, b, sim_id, origin, caster_id, name, x, y, effect_name, radius),
        !is_blank(effect_name),
        spec_is_presentation_viable(origin),
    ensures
        (lookup(b.projectile_view_effects@, k) matches Some(v) && v.sim_id == sim_id && v.caster_id == caster_id && v.name@ == name)
            ==> k == a.next_projectile_view_effect_id,
{
    let id = a.next_projectile_view_effect_id;
    if k != id {
        let kept = a.projectile_view_effects@.filter(other_tracker(sim_id, caster_id, name));
        if lookup(b.projectile_view_effects@, k) is Some {
            assert(lookup(b.projectile_view_effects@, k) == lookup(kept, k));
            lemma_lookup_some_member(kept, k);
            let i = choose|i: int| 0 <= i < kept.len() && (#[trigger] kept[i]).1 == lookup(kept, k)->0;
            a.projectile_view_effects@.lemma_filter_pred(other_tracker(sim_id, caster_id, name), i);
        }
    }
}


proof fn lemma_ended_are_own(es: Seq<(usize, ProjectileViewEffect)>, sim_id: usize, ps: Seq<ProjectileInfo>, id: usize)
    requires
        ended_trackers(es, sim_id, ps).contains(id),
    ensures
        exists|j: int| 0 <= j < es.len() && (#[trigger] es[j]).0 == id && es[j].1.sim_id == sim_id,
    decreases es.len(),
{
    let d = es.drop_last();
    let pre = ended_trackers(d, sim_id, ps);
    if pre.contains(id) {
        lemma_ended_are_own(d, sim_id, ps, id);
        let j = choose|j: int| 0 <= j < d.len() && (#[trigger] d[j]).0 == id && d[j].1.sim_id == sim_id;
        assert(es[j] == d[j]);
    } else {
        assert(es[es.len() - 1].0 == id);
    }
}

/// Updating a simulation's trackers leaves every tracker of another
/// simulation as it was (as long as no tracker of this simulation shares
/// its id).
pub proof fn law_update_keeps_other_sims(es: Seq<(usize, ProjectileViewEffect)>, sim_id: usize, ps: Seq<ProjectileInfo>, i: int)
    requires
        0 <= i < es.len(),
        es[i].1.sim_id != sim_id,
        forall|j: int| 0 <= j < es.len() && (#[trigger] es[j]).0 == es[i].0 ==> es[j].1.sim_id != sim_id,
    ensures
        trackers_after_update(es, sim_id, ps).contains(es[i]),
{
    let moved = es.map_values(|e: (usize, ProjectileViewEffect)| tracker_updated(e, sim_id, ps));
    let ended = ended_trackers(es, sim_id, ps);
    assert(moved[i] == es[i]);
    if ended.contains(es[i].0) {
        lemma_ended_are_own(es, sim_id, ps, es[i].0);
    }
    moved.lemma_filter_contains(not_ended(ended), i);
}


/// A seeded index always lies in `0..len` when the range is non-empty.
pub proof fn law_seeded_index_in_range(seed: u64, salt: u64, len: usize)
    requires
        len > 0,
    ensures
        spec_seeded_index(seed, salt, len) < len,
{
}

/// A chance of 100 percent or more always succeeds, and one of 0 never does.
pub proof fn law_chance_percent_bounds(seed: u64, caster_id: usize, target_id: usize, tick: usize, percent: usize)
    ensures
        percent >= 100 ==> spec_chance_percent(seed, caster_id, target_id, tick, percent),
        percent == 0 ==> !spec_chance_percent(seed, caster_id, target_id, tick, percent),
{
}

/// A seeded choice is deterministic: the same seed, salt and length always
/// give the same index.
pub proof fn law_seeded_index_deterministic(seed: u64, salt: u64, len: usize, r1: usize, r2: usize)
    requires
        r1 == spec_seeded_index(seed, salt, len),
        r2 == spec_seeded_index(seed, salt, len),
    ensures
        r1 == r2,
{
}


proof fn lemma_no_match_after_filter<A>(s: Seq<A>, p: spec_fn(A) -> bool, q: spec_fn(A) -> bool)
    requires
        s.filter(q).len() == 0,
    ensures
        s.filter(p).filter(q).len() == 0,
{
    let f = s.filter(p);
    assert forall|i: int| 0 <= i < f.len() implies !q(#[trigger] f[i]) by {
        if q(f[i]) {
            assert(f.contains(f[i]));
            s.lemma_filter_contains_rev(p, f[i]);
            let k = choose|k: int| 0 <= k < s.len() && s[k] == f[i];
            s.lemma_filter_contains(q, k);
        }
    }
    f.lemma_all_neg_filter_empty(q);
}

/// Removing a buff forgets every persisted application of it by the
/// target's player.
pub proof fn law_removed_buff_forgotten<B>(
    a: ModState<B>,
    b: ModState<B>,
    players: Seq<PlayerInfo>,
    sim_id: usize,
    target_id: usize,
    player_id: usize,
    name: Seq<char>,
)
    requires
        remove_buff_post(a, b, players, sim_id, target_id, name),
        owner_of(a, players, sim_id, target_id) == Some(player_id),
    ensures
        no_copies(b, sim_id, player_id, name),
{
    let q = same_name_pred::<B>(sim_id, player_id, name);
    let f = a.persisted_buffs@.filter(not_named_pred::<B>(sim_id, player_id, name));
    assert forall|i: int| 0 <= i < f.len() implies !q(#[trigger] f[i]) by {
        a.persisted_buffs@.lemma_filter_pred(not_named_pred::<B>(sim_id, player_id, name), i);
    }
    f.lemma_all_neg_filter_empty(q);
}

/// A forgotten buff is not restored: reconciling it re-applies nothing and
/// it stays forgotten.
pub proof fn law_forgotten_buff_not_restored<B>(
    a: ModState<B>,
    b: ModState<B>,
    sim_id: usize,
    player_id: usize,
    name: Seq<char>,
    now: usize,
    live_count: usize,
    r: Seq<(B, Option<usize>)>,
)
    requires
        no_copies(a, sim_id, player_id, name),
        reconcile_post(a, b, sim_id, player_id, name, now, live_count, r),
    ensures
        r.len() == 0,
        no_copies(b, sim_id, player_id, name),
{
    if lookup(a.records@, (sim_id, player_id)) is Some {
        lemma_no_match_after_filter(a.persisted_buffs@, unexpired_pred::<B>(sim_id, player_id, now), same_name_pred::<B>(sim_id, player_id, name));
    }
}

/// A forgotten buff stays forgotten through reconciling any buff and
/// restoring any player.
pub proof fn law_forgotten_buff_kept_by_restores<B>(
    a: ModState<B>,
    b: ModState<B>,
    c: ModState<B>,
    sim_id: usize,
    player_id: usize,
    name: Seq<char>,
    other_sim: usize,
    other_player: usize,
    other_name: Seq<char>,
    now: usize,
    live_count: usize,
    r: Seq<(B, Option<usize>)>,
    names: Seq<Seq<char>>,
)
    requires
        no_copies(a, sim_id, player_id, name),
        reconcile_post(a, b, other_sim, other_player, other_name, now, live_count, r),
        restore_post(b, c, other_sim, other_player, now, names),
    ensures
        no_copies(b, sim_id, player_id, name),
        no_copies(c, sim_id, player_id, name),
{
    let q = same_name_pred::<B>(sim_id, player_id, name);
    let keep = unexpired_pred::<B>(other_sim, other_player, now);
    if lookup(a.records@, (other_sim, other_player)) is Some {
        lemma_no_match_after_filter(a.persisted_buffs@, keep, q);
    }
    if lookup(b.records@, (other_sim, other_player)) is Some {
        lemma_no_match_after_filter(b.persisted_buffs@, keep, q);
    }
}

proof fn lemma_cap_rewrite_members<B>(
    s: Seq<PersistedBuff<B>>,
    sim_id: usize,
    player_id: usize,
    name: Seq<char>,
    cap: usize,
    buff: B,
    expires_at: Option<usize>,
)
    ensures
        forall|i: int| 0 <= i < cap_rewrite(s, sim_id, player_id, name, cap, buff, expires_at).len() ==> {
            let x = #[trigger] cap_rewrite(s, sim_id, player_id, name, cap, buff, expires_at)[i];
            s.contains(x) || (same_name_pred::<B>(sim_id, player_id, name)(x) && x.expires_at == expires_at)
        },
    decreases s.len(),
{
    if s.len() > 0 {
        let d = s.drop_last();
        lemma_cap_rewrite_members(d, sim_id, player_id, name, cap, buff, expires_at);
        let pre = cap_rewrite(d, sim_id, player_id, name, cap, buff, expires_at);
        let res = cap_rewrite(s, sim_id, player_id, name, cap, buff, expires_at);
        assert forall|i: int| 0 <= i < res.len() implies {
            let x = #[trigger] res[i];
            s.contains(x) || (same_name_pred::<B>(sim_id, player_id, name)(x) && x.expires_at == expires_at)
        } by {
            if i < pre.len() {
                assert(res[i] == pre[i]);
                if d.contains(pre[i]) {
                    let k = choose|k: int| 0 <= k < d.len() && d[k] == pre[i];
                    assert(s[k] == d[k]);
                }
            } else {
                assert(s[s.len() - 1] == s.last());
            }
        }
    }
}

/// Applying another buff (or the same buff for another player) leaves a
/// forgotten buff forgotten.
pub proof fn law_forgotten_buff_kept_by_other_applications<B>(
    s: Seq<PersistedBuff<B>>,
    sim_id: usize,
    player_id: usize,
    name: Seq<char>,
    other_sim: usize,
    other_player: usize,
    other_name: Seq<char>,
    stored_name: String,
    buff: B,
    expires_at: Option<usize>,
    cap: usize,
    now: usize,
)
    requires
        s.filter(same_name_pred::<B>(sim_id, player_id, name)).len() == 0,
        stored_name@ == other_name,
        (other_sim, other_player, other_name) != (sim_id, player_id, name),
    ensures
        spec_persist_application(s, other_sim, other_player, other_name, stored_name, buff, expires_at, cap, now).filter(
            same_name_pred::<B>(sim_id, player_id, name),
        ).len() == 0,
{
    let q = same_name_pred::<B>(sim_id, player_id, name);
    let kept = pruned(s, other_sim, other_player, now);
    lemma_no_match_after_filter(s, unexpired_pred::<B>(other_sim, other_player, now), q);
    let res = spec_persist_application(s, other_sim, other_player, other_name, stored_name, buff, expires_at, cap, now);
    lemma_cap_rewrite_members(kept, other_sim, other_player, other_name, cap, buff, expires_at);
    assert forall|i: int| 0 <= i < res.len() implies !q(#[trigger] res[i]) by {
        if kept.contains(res[i]) && q(res[i]) {
            let k = choose|k: int| 0 <= k < kept.len() && kept[k] == res[i];
            kept.lemma_filter_contains(q, k);
        }
    }
    res.lemma_all_neg_filter_empty(q);
}

/// Remembering an application leaves none of the player's copies expired:
/// each runs out after `now` or never, except those carrying the new
/// application's expiry (now plus its duration).
pub proof fn law_persisted_copies_unexpired<B>(
    s: Seq<PersistedBuff<B>>,
    sim_id: usize,
    player_id: usize,
    name: Seq<char>,
    stored_name: String,
    buff: B,
    expires_at: Option<usize>,
    cap: usize,
    now: usize,
)
    requires
        stored_name@ == name,
    ensures
        ({
            let res = spec_persist_application(s, sim_id, player_id, name, stored_name, buff, expires_at, cap, now);
            &&& forall|i: int| 0 <= i < res.len() && is_player_buff(#[trigger] res[i], sim_id, player_id)
                ==> res[i].expires_at is None || res[i].expires_at->0 > now || res[i].expires_at == expires_at
            &&& (expires_at is None || expires_at->0 >= now) ==> forall|i: int| 0 <= i < res.len() && is_player_buff(#[trigger] res[i], sim_id, player_id)
                ==> res[i].expires_at is None || res[i].expires_at->0 >= now
            &&& (expires_at is None || expires_at->0 > now) ==> forall|i: int| 0 <= i < res.len() && is_player_buff(#[trigger] res[i], sim_id, player_id)
                ==> res[i].expires_at is None || res[i].expires_at->0 > now
        }),
{
    let kept = pruned(s, sim_id, player_id, now);
    let res = spec_persist_application(s, sim_id, player_id, name, stored_name, buff, expires_at, cap, now);
    lemma_cap_rewrite_members(kept, sim_id, player_id, name, cap, buff, expires_at);
    assert forall|i: int| 0 <= i < res.len() && is_player_buff(#[trigger] res[i], sim_id, player_id)
        implies res[i].expires_at is None || res[i].expires_at->0 > now || res[i].expires_at == expires_at by {
        if kept.contains(res[i]) {
            let k = choose|k: int| 0 <= k < kept.len() && kept[k] == res[i];
            s.lemma_filter_pred(unexpired_pred::<B>(sim_id, player_id, now), k);
        }
    }
}

proof fn lemma_filter_no_duplicates<A>(s: Seq<A>, p: spec_fn(A) -> bool)
    requires
        s.no_duplicates(),
    ensures
        s.filter(p).no_duplicates(),
{
    let id = |x: A| x;
    assert(keys_unique(s, id)) by {
        assert forall|i: int, j: int| 0 <= i < s.len() && 0 <= j < s.len() && i != j implies id(#[trigger] s[i]) != id(#[trigger] s[j]) by {}
    }
    lemma_filter_keys_unique(s, id, p);
    let f = s.filter(p);
    assert forall|i: int, j: int| 0 <= i < f.len() && 0 <= j < f.len() && i != j implies f[i] != f[j] by {
        assert(id(f[i]) != id(f[j]));
    }
}

proof fn lemma_single_occurrence<A>(s: Seq<A>, x: A, p: spec_fn(A) -> bool)
    requires
        s.no_duplicates(),
        s.contains(x),
        forall|y: A| #[trigger] p(y) <==> y == x,
    ensures
        s.filter(p).len() == 1,
    decreases s.len(),
{
    let d = s.drop_last();
    let y = s.last();
    assert(s =~= d.push(y));
    d.lemma_filter_len_push(p, y);
    assert(d.no_duplicates()) by {
        assert forall|i: int, j: int| 0 <= i < d.len() && 0 <= j < d.len() && i != j implies d[i] != d[j] by {
            assert(s[i] == d[i] && s[j] == d[j]);
        }
    }
    if y == x {
        assert forall|i: int| 0 <= i < d.len() implies !p(#[trigger] d[i]) by {
            assert(s[i] == d[i]);
            assert(s[i] != s[s.len() - 1]);
        }
        d.lemma_all_neg_filter_empty(p);
    } else {
        let k = choose|k: int| 0 <= k < s.len() && s[k] == x;
        assert(k < s.len() - 1);
        assert(d[k] == x);
        lemma_single_occurrence(d, x, p);
    }
}

/// Cancelling a unit's effect leaves its cancellation recorded exactly
/// once, and a list of cancellations without repeats stays without
/// repeats.
pub proof fn law_cancellation_recorded_once<B>(
    a: ModState<B>,
    b: ModState<B>,
    sim_id: usize,
    owner_id: usize,
    entity_id: usize,
    destroy: bool,
    r: bool,
)
    requires
        cancel_post(a, b, sim_id, owner_id, entity_id, destroy, r),
        a.cancelled_effects@.no_duplicates(),
    ensures
        b.cancelled_effects@.no_duplicates(),
        b.cancelled_effects@.filter(cancel_of(sim_id, owner_id, entity_id)).len() == 1,
{
    let key = (sim_id, owner_id, entity_id);
    let s = a.cancelled_effects@;
    let t = b.cancelled_effects@;
    if !s.contains(key) {
        assert forall|i: int, j: int| 0 <= i < t.len() && 0 <= j < t.len() && i != j implies t[i] != t[j] by {
            if i == s.len() {
                assert(t[j] == s[j]);
            } else if j == s.len() {
                assert(t[i] == s[i]);
            } else {
                assert(t[i] == s[i] && t[j] == s[j]);
            }
        }
        assert(t[t.len() - 1] == key);
    }
    lemma_single_occurrence(t, key, cancel_of(sim_id, owner_id, entity_id));
}

/// Tracking a unit lifts its cancellation entirely, and a list of
/// cancellations without repeats stays without repeats.
pub proof fn law_tracking_lifts_cancellation<B>(
    a: ModState<B>,
    b: ModState<B>,
    sim_id: usize,
    tick: usize,
    owner_id: usize,
    entity_id: usize,
    name: Seq<char>,
    attack_enabled: bool,
    r: u64,
)
    requires
        track_post(a, b, sim_id, tick, owner_id, entity_id, name, attack_enabled, r),
        a.cancelled_effects@.no_duplicates(),
    ensures
        b.cancelled_effects@.no_duplicates(),
        !b.cancelled_effects@.contains((sim_id, owner_id, entity_id)),
{
    lemma_filter_no_duplicates(a.cancelled_effects@, other_cancel(sim_id, owner_id, entity_id));
    if b.cancelled_effects@.contains((sim_id, owner_id, entity_id)) {
        let k = choose|k: int| 0 <= k < b.cancelled_effects@.len() && b.cancelled_effects@[k] == (sim_id, owner_id, entity_id);
        a.cancelled_effects@.lemma_filter_pred(other_cancel(sim_id, owner_id, entity_id), k);
    }
}

proof fn lemma_mul_by_invertible_injective(x: u64, y: u64, c: u64, c_inv: u64)
    requires
        (c as int * c_inv as int) % 0x1_0000_0000_0000_0000int == 1,
        x.wrapping_mul(c) == y.wrapping_mul(c),
    ensures
        x == y,
{
    let m: int = 0x1_0000_0000_0000_0000int;
    assert forall|z: u64| ((z.wrapping_mul(c) as int) * c_inv as int) % m == z as int by {
        let zc = z as int * c as int;
        assert(z.wrapping_mul(c) as int == zc % m);
        lemma_mul_mod_noop_left(zc, c_inv as int, m);
        lemma_mul_is_associative(z as int, c as int, c_inv as int);
        lemma_mul_mod_noop_right(z as int, c as int * c_inv as int, m);
        lemma_small_mod(z as nat, m as nat);
    }
    assert(((x.wrapping_mul(c) as int) * c_inv as int) % m == x as int);
    assert(((y.wrapping_mul(c) as int) * c_inv as int) % m == y as int);
}

/// The splitmix64 mixer is injective (a bijection of `u64`): distinct
/// inputs give distinct outputs.
pub proof fn law_splitmix64_injective(a: u64, b: u64)
    requires
        a != b,
    ensures
        spec_splitmix64(a) != spec_splitmix64(b),
{
    let va = a.wrapping_add(0x9e3779b97f4a7c15);
    let vb = b.wrapping_add(0x9e3779b97f4a7c15);
    let xa = va ^ (va >> 30u64);
    let xb = vb ^ (vb >> 30u64);
    let z1a = xa.wrapping_mul(0xbf58476d1ce4e5b9);
    let z1b = xb.wrapping_mul(0xbf58476d1ce4e5b9);
    let ya = z1a ^ (z1a >> 27u64);
    let yb = z1b ^ (z1b >> 27u64);
    let z2a = ya.wrapping_mul(0x94d049bb133111eb);
    let z2b = yb.wrapping_mul(0x94d049bb133111eb);
    if spec_splitmix64(a) == spec_splitmix64(b) {
        assert(z2a ^ (z2a >> 31u64) == z2b ^ (z2b >> 31u64));
        assert((z2a ^ (z2a >> 31u64) == z2b ^ (z2b >> 31u64)) ==> z2a == z2b) by (bit_vector);
        lemma_mul_by_invertible_injective(ya, yb, 0x94d049bb133111eb, 0x319642b2d24d8ec3);
        assert((z1a ^ (z1a >> 27u64) == z1b ^ (z1b >> 27u64)) ==> z1a == z1b) by (bit_vector);
        lemma_mul_by_invertible_injective(xa, xb, 0xbf58476d1ce4e5b9, 0x96de1b173f119089);
        assert((va ^ (va >> 30u64) == vb ^ (vb >> 30u64)) ==> va == vb) by (bit_vector);
        assert(false);
    }
}

/// A position whose coordinates are below 2^20, small enough that no
/// distance computation saturates.
pub open spec fn small_pos(p: EntityPos) -> bool {
    p.0 < 0x100000 && p.1 < 0x100000
}

proof fn lemma_square_of_difference(a: int, b: int)
    by (nonlinear_arith)
    ensures
        (a - b) * (a - b) == a * a - 2 * (a * b) + b * b,
{
}

proof fn lemma_distribute(k: int, a: int, b: int)
    by (nonlinear_arith)
    ensures
        k * (a + b) == k * a + k * b,
{
}

/// Expanded form of `m^2` times the squared distance from `(u, v)` to
/// `(s/m)(x, y)`.
proof fn lemma_scaled_gap(u: int, v: int, x: int, y: int, s: int, m: int, l: int, d: int)
    requires
        l == x * x + y * y,
        d == u * x + v * y,
    ensures
        (m * u - x * s) * (m * u - x * s) + (m * v - y * s) * (m * v - y * s)
            == m * m * (u * u + v * v) - 2 * s * m * d + s * s * l,
{
    lemma_square_of_difference(m * u, x * s);
    lemma_square_of_difference(m * v, y * s);
    lemma_distribute(m * m, u * u, v * v);
    lemma_distribute(s * m, u * x, v * y);
    lemma_distribute(s * s, x * x, y * y);
    assert((m * u) * (m * u) == (m * m) * (u * u)) by (nonlinear_arith);
    assert((m * v) * (m * v) == (m * m) * (v * v)) by (nonlinear_arith);
    assert((x * s) * (x * s) == (s * s) * (x * x)) by (nonlinear_arith);
    assert((y * s) * (y * s) == (s * s) * (y * y)) by (nonlinear_arith);
    assert((m * u) * (x * s) == (s * m) * (u * x)) by (nonlinear_arith);
    assert((m * v) * (y * s) == (s * m) * (v * y)) by (nonlinear_arith);
    assert(2 * s * m * d == 2 * ((s * m) * d)) by (nonlinear_arith);
    assert(s * s * l == (s * s) * l) by (nonlinear_arith);
}

proof fn lemma_segment_numerator(u: int, v: int, x: int, y: int, t: int, l: int, d: int)
    requires
        l == x * x + y * y,
        d == u * x + v * y,
    ensures
        (l * u - x * t) * (l * u - x * t) + (l * v - y * t) * (l * v - y * t)
            == l * l * (u * u + v * v) - 2 * t * l * d + t * t * l,
{
    lemma_scaled_gap(u, v, x, y, t, l, l, d);
}

/// Among the points `(s/m)(x, y)` of the segment from the origin to
/// `(x, y)`, the one at `t/l` (the projection of `(u, v)` clamped to the
/// segment) is closest to `(u, v)`; both distances are scaled to integers.
proof fn lemma_segment_gap_minimal(u: int, v: int, x: int, y: int, s: int, m: int)
    requires
        x * x + y * y > 0,
        0 <= s <= m,
        m > 0,
    ensures
        ({
            let l = x * x + y * y;
            let d = u * x + v * y;
            let t = if d < 0 { 0 } else if d > l { l } else { d };
            ((m * u - x * s) * (m * u - x * s) + (m * v - y * s) * (m * v - y * s)) * (l * l)
                >= ((l * u - x * t) * (l * u - x * t) + (l * v - y * t) * (l * v - y * t)) * (m * m)
        }),
{
    let l = x * x + y * y;
    let d = u * x + v * y;
    let t = if d < 0 { 0 } else if d > l { l } else { d };
    let sq = u * u + v * v;
    lemma_scaled_gap(u, v, x, y, s, m, l, d);
    lemma_scaled_gap(u, v, x, y, t, l, l, d);
    let a = m * m * sq - 2 * s * m * d + s * s * l;
    let b = l * l * sq - 2 * t * l * d + t * t * l;
    let alpha = s * l;
    let beta = t * m;
    assert(a * (l * l) == (m * m * sq) * (l * l) - (2 * s * m * d) * (l * l) + (s * s * l) * (l * l)) by (nonlinear_arith)
        requires
            a == m * m * sq - 2 * s * m * d + s * s * l,
    ;
    assert(b * (m * m) == (l * l * sq) * (m * m) - (2 * t * l * d) * (m * m) + (t * t * l) * (m * m)) by (nonlinear_arith)
        requires
            b == l * l * sq - 2 * t * l * d + t * t * l,
    ;
    assert((m * m * sq) * (l * l) == (l * l * sq) * (m * m)) by (nonlinear_arith);
    assert((2 * s * m * d) * (l * l) == l * (2 * m * d * alpha)) by (nonlinear_arith)
        requires
            alpha == s * l,
    ;
    assert((s * s * l) * (l * l) == l * (alpha * alpha)) by (nonlinear_arith)
        requires
            alpha == s * l,
    ;
    assert((2 * t * l * d) * (m * m) == l * (2 * m * d * beta)) by (nonlinear_arith)
        requires
            beta == t * m,
    ;
    assert((t * t * l) * (m * m) == l * (beta * beta)) by (nonlinear_arith)
        requires
            beta == t * m,
    ;
    assert((alpha - beta) * (alpha + beta - 2 * m * d) == alpha * alpha - beta * beta - 2 * m * d * alpha + 2 * m * d * beta)
        by (nonlinear_arith);
    assert(l * (alpha * alpha - beta * beta - 2 * m * d * alpha + 2 * m * d * beta)
        == l * (alpha * alpha) - l * (beta * beta) - l * (2 * m * d * alpha) + l * (2 * m * d * beta)) by (nonlinear_arith);
    if d < 0 {
        assert((alpha - beta) * (alpha + beta - 2 * m * d) >= 0) by (nonlinear_arith)
            requires
                t == 0,
                beta == t * m,
                alpha == s * l,
                s >= 0,
                l > 0,
                m > 0,
                d < 0,
        ;
    } else if d > l {
        assert((alpha - beta) * (alpha + beta - 2 * m * d) >= 0) by (nonlinear_arith)
            requires
                t == l,
                beta == t * m,
                alpha == s * l,
                0 <= s <= m,
                l > 0,
                m > 0,
                d > l,
        ;
    } else {
        assert((alpha - beta) * (alpha + beta - 2 * m * d) >= 0) by (nonlinear_arith)
            requires
                t == d,
                beta == t * m,
        ;
    }
    assert(l * ((alpha - beta) * (alpha + beta - 2 * m * d)) >= 0) by (nonlinear_arith)
        requires
            l > 0,
            (alpha - beta) * (alpha + beta - 2 * m * d) >= 0,
    ;
}

proof fn lemma_segment_core(u: int, v: int, x: int, y: int)
    requires
        -0x100000 < u < 0x100000,
        -0x100000 < v < 0x100000,
        -0x100000 < x < 0x100000,
        -0x100000 < y < 0x100000,
        x * x + y * y > 0,
    ensures
        ({
            let l = x * x + y * y;
            let d = u * x + v * y;
            let t = if d < 0 { 0 } else if d > l { l } else { d };
            let n = (l * u - x * t) * (l * u - x * t) + (l * v - y * t) * (l * v - y * t);
            &&& l <= 0x20000000000
            &&& l * l <= i128::MAX
            &&& 0 <= t <= l
            &&& 0 <= n <= i128::MAX
            &&& n / (l * l) <= u * u + v * v
            &&& u * u + v * v < 0x20000000000
        }),
{
    let l = x * x + y * y;
    let d = u * x + v * y;
    let t = if d < 0 { 0 } else if d > l { l } else { d };
    let s = u * u + v * v;
    assert(0 <= u * u < 0x10000000000 && 0 <= v * v < 0x10000000000 && 0 <= x * x < 0x10000000000 && 0 <= y * y < 0x10000000000) by (nonlinear_arith)
        requires
            -0x100000 < u < 0x100000,
            -0x100000 < v < 0x100000,
            -0x100000 < x < 0x100000,
            -0x100000 < y < 0x100000,
    ;
    assert(0 < l * l <= 0x20000000000 * 0x20000000000) by (nonlinear_arith)
        requires
            0 < l <= 0x20000000000,
    ;
    lemma_segment_numerator(u, v, x, y, t, l, d);
    let n = (l * u - x * t) * (l * u - x * t) + (l * v - y * t) * (l * v - y * t);
    assert(n == l * l * s - 2 * t * l * d + t * t * l);
    assert(t * t * l - 2 * t * l * d <= 0) by (nonlinear_arith)
        requires
            t == 0 || (0 < t <= d),
            l > 0,
    ;
    assert(n >= 0) by (nonlinear_arith)
        requires
            n == (l * u - x * t) * (l * u - x * t) + (l * v - y * t) * (l * v - y * t),
    ;
    assert(n <= l * l * s);
    assert(l * l * s <= 0x20000000000 * 0x20000000000 * 0x20000000000) by (nonlinear_arith)
        requires
            0 < l <= 0x20000000000,
            0 <= s < 0x20000000000,
    ;
    assert(n / (l * l) <= s) by (nonlinear_arith)
        requires
            0 <= n <= l * l * s,
            l * l > 0,
    {
        assert(n < (l * l) * (s + 1));
    }
}

/// The distance to a segment does not depend on which end the segment
/// starts at, and is at most the distance to either end (for coordinates
/// below 2^20, where nothing saturates); its computation does not overflow.
pub proof fn law_segment_distance_symmetric_and_bounded(point: EntityPos, start: EntityPos, end: EntityPos)
    requires
        small_pos(point),
        small_pos(start),
        small_pos(end),
    ensures
        segment_arith_fits(point, start, end),
        spec_distance_to_segment_sq(point, start, end) == spec_distance_to_segment_sq(point, end, start),
        spec_distance_to_segment_sq(point, start, end) <= spec_distance_sq(point, start),
        spec_distance_to_segment_sq(point, start, end) <= spec_distance_sq(point, end),
{
    let u = point.0 - start.0;
    let v = point.1 - start.1;
    let x = end.0 - start.0;
    let y = end.1 - start.1;
    if x * x + y * y > 0 {
        let l = x * x + y * y;
        let d = u * x + v * y;
        let t = if d < 0 { 0 } else if d > l { l } else { d };
        assert((-x) * (-x) + (-y) * (-y) == l) by (nonlinear_arith)
            requires
                l == x * x + y * y,
        ;
        lemma_segment_core(u, v, x, y);
        lemma_segment_core(point.0 - end.0, point.1 - end.1, start.0 - end.0, start.1 - end.1);
        assert((u - x) * (-x) + (v - y) * (-y) == l - d) by (nonlinear_arith)
            requires
                l == x * x + y * y,
                d == u * x + v * y,
        ;
        assert(l * (u - x) - (-x) * (l - t) == l * u - x * t) by (nonlinear_arith)
            requires
                l == x * x + y * y,
        ;
        assert(l * (v - y) - (-y) * (l - t) == l * v - y * t) by (nonlinear_arith)
            requires
                l == x * x + y * y,
        ;
        assert(point.0 * l - (start.0 * l + x * t) == l * u - x * t) by (nonlinear_arith)
            requires
                u == point.0 - start.0,
        ;
        assert(point.1 * l - (start.1 * l + y * t) == l * v - y * t) by (nonlinear_arith)
            requires
                v == point.1 - start.1,
        ;
        assert(point.0 * l - (end.0 * l + (-x) * (l - t)) == l * (u - x) - (-x) * (l - t)) by (nonlinear_arith)
            requires
                u == point.0 - start.0,
                x == end.0 - start.0,
        ;
        assert(point.1 * l - (end.1 * l + (-y) * (l - t)) == l * (v - y) - (-y) * (l - t)) by (nonlinear_arith)
            requires
                v == point.1 - start.1,
                y == end.1 - start.1,
        ;
        assert(segment_t(point, end, start) == l - t);
        assert(0 <= point.0 * l <= 0x100000 * 0x20000000000 && 0 <= start.0 * l <= 0x100000 * 0x20000000000
            && 0 <= point.1 * l <= 0x100000 * 0x20000000000 && 0 <= start.1 * l <= 0x100000 * 0x20000000000) by (nonlinear_arith)
            requires
                0 <= point.0 < 0x100000,
                0 <= point.1 < 0x100000,
                0 <= start.0 < 0x100000,
                0 <= start.1 < 0x100000,
                0 < l <= 0x20000000000,
        ;
        assert(-0x100000 * 0x20000000000 <= x * t <= 0x100000 * 0x20000000000
            && -0x100000 * 0x20000000000 <= y * t <= 0x100000 * 0x20000000000
            && -0x10000000000 <= u * x <= 0x10000000000 && -0x10000000000 <= v * y <= 0x10000000000) by (nonlinear_arith)
            requires
                -0x100000 < u < 0x100000,
                -0x100000 < v < 0x100000,
                -0x100000 < x < 0x100000,
                -0x100000 < y < 0x100000,
                0 <= t <= 0x20000000000,
        ;
    } else {
        assert(x * x >= 0 && y * y >= 0) by (nonlinear_arith);
        assert(x == 0 && y == 0) by (nonlinear_arith)
            requires
                x * x + y * y <= 0,
        ;
        assert(u * u + v * v < 0x20000000000) by (nonlinear_arith)
            requires
                -0x100000 < u < 0x100000,
                -0x100000 < v < 0x100000,
        ;
    }
}


/// `m^2` times the squared distance from `point` to the point
/// `start + (s/m)(end - start)` of the segment.
pub open spec fn segment_gap_scaled(point: EntityPos, start: EntityPos, end: EntityPos, s: int, m: int) -> int {
    let u = point.0 - start.0;
    let v = point.1 - start.1;
    let x = end.0 - start.0;
    let y = end.1 - start.1;
    (m * u - x * s) * (m * u - x * s) + (m * v - y * s) * (m * v - y * s)
}

/// For coordinates below 2^20 the distance to a segment is the floor of the
/// exact squared distance from `point` to the segment: to `start` when the
/// segment is a single point, otherwise to its point at
/// `segment_t / l` of the way from `start` to `end` (`l` the squared
/// length), which no point of the segment at a rational position `s/m` is
/// closer than.
pub proof fn law_segment_distance_is_floor_of_exact(point: EntityPos, start: EntityPos, end: EntityPos)
    requires
        small_pos(point),
        small_pos(start),
        small_pos(end),
    ensures
        ({
            let u = point.0 - start.0;
            let v = point.1 - start.1;
            let x = end.0 - start.0;
            let y = end.1 - start.1;
            let l = x * x + y * y;
            let t = segment_t(point, start, end);
            &&& l == 0 ==> spec_distance_to_segment_sq(point, start, end) == u * u + v * v
            &&& l > 0 ==> 0 <= t <= l
            &&& l > 0 ==> spec_distance_to_segment_sq(point, start, end) == segment_gap_scaled(point, start, end, t, l) / (l * l)
            &&& l > 0 ==> forall|s: int, m: int| 0 <= s <= m && m > 0 ==>
                #[trigger] segment_gap_scaled(point, start, end, s, m) * (l * l) >= segment_gap_scaled(point, start, end, t, l) * (m * m)
        }),
{
    let u = point.0 - start.0;
    let v = point.1 - start.1;
    let x = end.0 - start.0;
    let y = end.1 - start.1;
    assert(x * x >= 0 && y * y >= 0) by (nonlinear_arith);
    if x * x + y * y > 0 {
        let l = x * x + y * y;
        let d = u * x + v * y;
        let t = if d < 0 { 0 } else if d > l { l } else { d };
        lemma_segment_core(u, v, x, y);
        assert(segment_t(point, start, end) == t);
        assert(point.0 * l - (start.0 * l + x * t) == l * u - x * t) by (nonlinear_arith)
            requires
                u == point.0 - start.0,
        ;
        assert(point.1 * l - (start.1 * l + y * t) == l * v - y * t) by (nonlinear_arith)
            requires
                v == point.1 - start.1,
        ;
        assert forall|s: int, m: int| 0 <= s <= m && m > 0 implies
            #[trigger] segment_gap_scaled(point, start, end, s, m) * (l * l) >= segment_gap_scaled(point, start, end, t, l) * (m * m) by {
            lemma_segment_gap_minimal(u, v, x, y, s, m);
        }
    } else {
        assert(x == 0 && y == 0) by (nonlinear_arith)
            requires
                x * x + y * y <= 0,
        ;
        assert(u * u + v * v < 0x20000000000) by (nonlinear_arith)
            requires
                -0x100000 < u < 0x100000,
                -0x100000 < v < 0x100000,
        ;
    }
}

} // verus!
