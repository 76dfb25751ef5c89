//! Match-persistent per-player state (counters, flags, persisted buffs,
//! base stats, lifecycle), entity ownership and player resolution. Every
//! record is scoped by simulation id, so concurrent simulations never see
//! each other's data.
use vstd::prelude::*;
use crate::periodic::{PeriodicStore, clear_pred};
use crate::seq_util::vec_retain;
use crate::spawns::{SpawnAggregationScope, SpawnedUnit};
use crate::visuals::{BuffVfxSnapshot, ProjectileViewEffect};
use crate::table::{KeyEq, lookup, key_pred, table_get, table_get_ref, table_insert, table_remove, lemma_lookup_filter};
use crate::text::str_eq;
use crate::world::{KillLogEntry, PlayerInfo, Stat};

verus! {

broadcast use {vstd::seq_lib::group_seq_properties, vstd::seq::group_seq_axioms};

/// The scalar part of a player's persistent state.
#[derive(Clone, Copy, Debug)]
pub struct PlayerRecord {
    pub persistent_base_stat: Option<Stat>,
    pub persistent_modify_stats_stack: Option<usize>,
    pub last_entity_id: Option<usize>,
    pub was_alive: bool,
    pub entity_missing: bool,
    pub persistent_capture_count: usize,
    pub restore_count: usize,
    pub restored_buff_count: usize,
    pub identity_change_count: usize,
}

/// The state of a player nothing has been recorded for.
pub open spec fn default_record() -> PlayerRecord {
    PlayerRecord {
        persistent_base_stat: None,
        persistent_modify_stats_stack: None,
        last_entity_id: None,
        was_alive: false,
        entity_missing: false,
        persistent_capture_count: 0,
        restore_count: 0,
        restored_buff_count: 0,
        identity_change_count: 0,
    }
}

/// A fresh player record.
pub fn new_record() -> (r: PlayerRecord)
    ensures
        r == default_record(),
{
    PlayerRecord {
        persistent_base_stat: None,
        persistent_modify_stats_stack: None,
        last_entity_id: None,
        was_alive: false,
        entity_missing: false,
        persistent_capture_count: 0,
        restore_count: 0,
        restored_buff_count: 0,
        identity_change_count: 0,
    }
}

/// A buff application remembered for a player so it can be restored after
/// death. `expires_at` is the tick at which a timed application runs out.
pub struct PersistedBuff<B> {
    pub sim_id: usize,
    pub player_id: usize,
    pub name: String,
    pub buff: B,
    pub expires_at: Option<usize>,
}

/// All runtime bookkeeping of the mod, for every simulation.
pub struct ModState<B> {
    pub records: Vec<((usize, usize), PlayerRecord)>,
    pub champion_keys: Vec<((usize, usize), String)>,
    pub counters: Vec<((usize, usize, String), i64)>,
    pub flags: Vec<((usize, usize, String), bool)>,
    pub persisted_buffs: Vec<PersistedBuff<B>>,
    pub entity_owners: Vec<((usize, usize), usize)>,
    pub spawned_units: Vec<(usize, SpawnedUnit)>,
    pub cancelled_effects: Vec<(usize, usize, usize)>,
    pub next_spawned_unit_serial: u64,
    pub missed_owner_lookups: usize,
    pub periodics: PeriodicStore,
    pub aggregation_scopes: Vec<SpawnAggregationScope>,
    pub buff_vfx_by_sim: Vec<(usize, Vec<BuffVfxSnapshot>)>,
    pub buff_vfx_starts: Vec<((usize, usize, String), usize)>,
    pub latest_buff_vfx_sim: usize,
    pub projectile_view_effects: Vec<(usize, ProjectileViewEffect)>,
    pub next_projectile_view_effect_id: usize,
}

/// `x + 1`, saturating.
pub open spec fn sat_inc(x: usize) -> usize {
    if x == usize::MAX { x } else { (x + 1) as usize }
}

fn inc(x: usize) -> (r: usize)
    ensures
        r == sat_inc(x),
{
    x.saturating_add(1)
}

/// The record of a player, the default one when nothing is stored.
pub open spec fn record_of<B>(st: ModState<B>, sim_id: usize, player_id: usize) -> PlayerRecord {
    match lookup(st.records@, (sim_id, player_id)) {
        Some(r) => r,
        None => default_record(),
    }
}

/// The player-data part of two states is the same.
pub open spec fn player_data_same<B>(a: ModState<B>, b: ModState<B>) -> bool {
    &&& b.records@ == a.records@
    &&& b.champion_keys@ == a.champion_keys@
    &&& b.counters@ == a.counters@
    &&& b.flags@ == a.flags@
    &&& b.persisted_buffs@ == a.persisted_buffs@
}

/// The ownership part of two states is the same.
pub open spec fn ownership_same<B>(a: ModState<B>, b: ModState<B>) -> bool {
    &&& b.entity_owners@ == a.entity_owners@
    &&& b.spawned_units@ == a.spawned_units@
    &&& b.cancelled_effects@ == a.cancelled_effects@
    &&& b.next_spawned_unit_serial == a.next_spawned_unit_serial
}

/// The remaining runtime part of two states is the same.
pub open spec fn runtime_same<B>(a: ModState<B>, b: ModState<B>) -> bool {
    &&& b.missed_owner_lookups == a.missed_owner_lookups
    &&& b.periodics@ == a.periodics@
    &&& b.aggregation_scopes@ == a.aggregation_scopes@
    &&& visuals_same(a, b)
}

/// The visual bookkeeping of two states is the same.
pub open spec fn visuals_same<B>(a: ModState<B>, b: ModState<B>) -> bool {
    &&& b.buff_vfx_by_sim@ == a.buff_vfx_by_sim@
    &&& b.buff_vfx_starts@ == a.buff_vfx_starts@
    &&& b.latest_buff_vfx_sim == a.latest_buff_vfx_sim
    &&& b.projectile_view_effects@ == a.projectile_view_effects@
    &&& b.next_projectile_view_effect_id == a.next_projectile_view_effect_id
}

/// Only the record of `(sim_id, player_id)` may differ.
pub open spec fn other_records_same<B>(a: ModState<B>, b: ModState<B>, sim_id: usize, player_id: usize) -> bool {
    forall|k: (usize, usize)| k != (sim_id, player_id) ==> #[trigger] lookup(b.records@, k) == lookup(a.records@, k)
}

/// Persisted buffs that do not belong to the player.
pub open spec fn not_player_buff<B>(sim_id: usize, player_id: usize) -> spec_fn(PersistedBuff<B>) -> bool {
    |p: PersistedBuff<B>| !(p.sim_id == sim_id && p.player_id == player_id)
}

/// Keys that do not belong to the player.
pub open spec fn not_player_key(sim_id: usize, player_id: usize) -> spec_fn((usize, usize, Seq<char>)) -> bool {
    |k: (usize, usize, Seq<char>)| !(k.0 == sim_id && k.1 == player_id)
}

/// Counters, flags and persisted buffs of the player are dropped; the
/// others are kept.
pub open spec fn player_extras_removed<B>(a: ModState<B>, b: ModState<B>, sim_id: usize, player_id: usize) -> bool {
    &&& forall|k: (usize, usize, Seq<char>)| #[trigger] lookup(b.counters@, k) == if k.0 == sim_id && k.1 == player_id { None } else { lookup(a.counters@, k) }
    &&& forall|k: (usize, usize, Seq<char>)| #[trigger] lookup(b.flags@, k) == if k.0 == sim_id && k.1 == player_id { None } else { lookup(a.flags@, k) }
    &&& b.persisted_buffs@ == a.persisted_buffs@.filter(not_player_buff::<B>(sim_id, player_id))
}

// ------------------------------------------------------------------
// Player resolution
// ------------------------------------------------------------------

/// `i` is the first player whose champion is `entity_id`.
pub open spec fn is_champion_owner_at(players: Seq<PlayerInfo>, i: int, entity_id: usize) -> bool {
    &&& 0 <= i < players.len()
    &&& players[i].champion_id == Some(entity_id)
    &&& forall|j: int| 0 <= j < i ==> (#[trigger] players[j]).champion_id != Some(entity_id)
}

/// The player whose champion is `entity_id` (the first such player).
pub open spec fn champion_owner(players: Seq<PlayerInfo>, entity_id: usize) -> Option<usize> {
    if exists|i: int| is_champion_owner_at(players, i, entity_id) {
        Some(players[choose|i: int| is_champion_owner_at(players, i, entity_id)].id)
    } else {
        None
    }
}

/// `i` is the first unit of simulation `sim_id` with entity `entity_id`.
pub open spec fn is_unit_at(units: Seq<(usize, SpawnedUnit)>, i: int, sim_id: usize, entity_id: usize) -> bool {
    &&& 0 <= i < units.len()
    &&& units[i].0 == sim_id && units[i].1.entity_id == entity_id
    &&& forall|j: int| 0 <= j < i ==> !((#[trigger] units[j]).0 == sim_id && units[j].1.entity_id == entity_id)
}

/// The owner of the spawned unit `entity_id` in `sim_id` (first match).
pub open spec fn unit_owner(units: Seq<(usize, SpawnedUnit)>, sim_id: usize, entity_id: usize) -> Option<usize> {
    if exists|i: int| is_unit_at(units, i, sim_id, entity_id) {
        Some(units[choose|i: int| is_unit_at(units, i, sim_id, entity_id)].1.owner_id)
    } else {
        None
    }
}

/// Player resolution: the player whose champion is the entity, else the
/// bound owner of the entity, else (for a spawned unit) the player of the
/// unit's owner, following at most `fuel` owner links.
pub open spec fn resolve_player(
    owners: Seq<((usize, usize), usize)>,
    units: Seq<(usize, SpawnedUnit)>,
    players: Seq<PlayerInfo>,
    sim_id: usize,
    entity_id: usize,
    fuel: nat,
) -> Option<usize>
    decreases fuel,
{
    match champion_owner(players, entity_id) {
        Some(p) => Some(p),
        None => match lookup(owners, (sim_id, entity_id)) {
            Some(p) => Some(p),
            None => match unit_owner(units, sim_id, entity_id) {
                Some(o) => if o != entity_id && fuel > 0 {
                    resolve_player(owners, units, players, sim_id, o, (fuel - 1) as nat)
                } else {
                    None
                },
                None => None,
            },
        },
    }
}

/// The player that owns `entity_id` in `sim_id`; owner links through
/// spawned units are followed at most once per tracked unit.
pub open spec fn owner_of<B>(st: ModState<B>, players: Seq<PlayerInfo>, sim_id: usize, entity_id: usize) -> Option<usize> {
    resolve_player(st.entity_owners@, st.spawned_units@, players, sim_id, entity_id, st.spawned_units@.len())
}

fn find_champion_owner(players: &Vec<PlayerInfo>, entity_id: usize) -> (r: Option<usize>)
    ensures
        r == champion_owner(players@, entity_id),
{
    let mut i: usize = 0;
    while i < players.len()
        invariant
            i <= players@.len(),
            forall|j: int| 0 <= j < i ==> (#[trigger] players@[j]).champion_id != Some(entity_id),
        decreases players.len() - i,
    {
        if players[i].champion_id == Some(entity_id) {
            proof {
                assert(is_champion_owner_at(players@, i as int, entity_id));
                let c = choose|c: int| is_champion_owner_at(players@, c, entity_id);
                if c < i {
                    assert(players@[c].champion_id != Some(entity_id));
                }
                if i < c {
                    assert(players@[i as int].champion_id != Some(entity_id));
                }
            }
            return Some(players[i].id);
        }
        i = i + 1;
    }
    None
}

fn find_unit_owner(units: &Vec<(usize, SpawnedUnit)>, sim_id: usize, entity_id: usize) -> (r: Option<usize>)
    ensures
        r == unit_owner(units@, sim_id, entity_id),
{
    let mut i: usize = 0;
    while i < units.len()
        invariant
            i <= units@.len(),
            forall|j: int| 0 <= j < i ==> !((#[trigger] units@[j]).0 == sim_id && units@[j].1.entity_id == entity_id),
        decreases units.len() - i,
    {
        if units[i].0 == sim_id && units[i].1.entity_id == entity_id {
            proof {
                assert(is_unit_at(units@, i as int, sim_id, entity_id));
                let c = choose|c: int| is_unit_at(units@, c, sim_id, entity_id);
                if c < i {
                    assert(!(units@[c].0 == sim_id && units@[c].1.entity_id == entity_id));
                }
                if i < c {
                    assert(!(units@[i as int].0 == sim_id && units@[i as int].1.entity_id == entity_id));
                }
            }
            return Some(units[i].1.owner_id);
        }
        i = i + 1;
    }
    None
}

fn resolve_from(
    owners: &Vec<((usize, usize), usize)>,
    units: &Vec<(usize, SpawnedUnit)>,
    players: &Vec<PlayerInfo>,
    sim_id: usize,
    entity_id: usize,
    fuel: usize,
) -> (r: Option<usize>)
    ensures
        r == resolve_player(owners@, units@, players@, sim_id, entity_id, fuel as nat),
    decreases fuel,
{
    if let Some(p) = find_champion_owner(players, entity_id) {
        return Some(p);
    }
    if let Some(p) = table_get(owners, &(sim_id, entity_id)) {
        return Some(p);
    }
    match find_unit_owner(units, sim_id, entity_id) {
        Some(o) => {
            if o != entity_id && fuel > 0 {
                resolve_from(owners, units, players, sim_id, o, fuel - 1)
            } else {
                None
            }
        },
        None => None,
    }
}

/// Resolves the player owning `entity_id`: the player whose champion it is,
/// else its bound owner, else (for a spawned unit) the owner's player.
pub fn player_for_entity<B>(st: &ModState<B>, players: &Vec<PlayerInfo>, sim_id: usize, entity_id: usize) -> (r: Option<usize>)
    ensures
        r == owner_of(*st, players@, sim_id, entity_id),
{
    resolve_from(&st.entity_owners, &st.spawned_units, players, sim_id, entity_id, st.spawned_units.len())
}

// ------------------------------------------------------------------
// Identity and ownership
// ------------------------------------------------------------------

/// `init` changes the stored champion of the player.
pub open spec fn identity_changes<B>(st: ModState<B>, sim_id: usize, player_id: usize, champion_key: Seq<char>) -> bool {
    match lookup(st.champion_keys@, (sim_id, player_id)) {
        Some(k) => k@ != champion_key,
        None => false,
    }
}

/// The effect of `init`.
pub open spec fn init_post<B>(
    a: ModState<B>,
    b: ModState<B>,
    sim_id: usize,
    player_id: usize,
    entity_id: usize,
    champion_key: Seq<char>,
) -> bool {
    let pk = (sim_id, player_id);
    let changed = identity_changes(a, sim_id, player_id, champion_key);
    let old_rec = record_of(a, sim_id, player_id);
    let base = if changed {
        PlayerRecord { identity_change_count: sat_inc(old_rec.identity_change_count), ..default_record() }
    } else {
        old_rec
    };
    &&& lookup(b.records@, pk) == Some(PlayerRecord { last_entity_id: Some(entity_id), ..base })
    &&& other_records_same(a, b, sim_id, player_id)
    &&& (lookup(b.champion_keys@, pk) matches Some(k) && k@ == champion_key)
    &&& forall|k: (usize, usize)| k != pk ==> #[trigger] lookup(b.champion_keys@, k) == lookup(a.champion_keys@, k)
    &&& changed ==> player_extras_removed(a, b, sim_id, player_id)
    &&& !changed ==> (b.counters@ == a.counters@ && b.flags@ == a.flags@ && b.persisted_buffs@ == a.persisted_buffs@)
    &&& forall|k: (usize, usize)| #[trigger] lookup(b.entity_owners@, k) == if k == (sim_id, entity_id) { Some(player_id) } else { lookup(a.entity_owners@, k) }
    &&& b.spawned_units@ == a.spawned_units@
    &&& b.cancelled_effects@ == a.cancelled_effects@
    &&& b.next_spawned_unit_serial == a.next_spawned_unit_serial
    &&& runtime_same(a, b)
}

fn remove_player_keys<V>(t: &mut Vec<((usize, usize, String), V)>, sim_id: usize, player_id: usize)
    ensures
        forall|k: (usize, usize, Seq<char>)| #[trigger] lookup(final(t)@, k) == if k.0 == sim_id && k.1 == player_id { None } else { lookup(old(t)@, k) },
{
    let ghost s = t@;
    let keep = |e: &((usize, usize, String), V)| -> (b: bool)
        ensures
            b == !((e.0).0 == sim_id && (e.0).1 == player_id),
        { !((e.0).0 == sim_id && (e.0).1 == player_id) };
    vec_retain(t, keep, Ghost(key_pred::<(usize, usize, String), V>(not_player_key(sim_id, player_id))));
    proof {
        assert forall|k: (usize, usize, Seq<char>)| #[trigger] lookup(t@, k) == if k.0 == sim_id && k.1 == player_id { None } else { lookup(s, k) } by {
            lemma_lookup_filter(s, not_player_key(sim_id, player_id), k);
        }
    }
}

fn remove_player_extras<B>(st: &mut ModState<B>, sim_id: usize, player_id: usize)
    ensures
        player_extras_removed(*old(st), *final(st), sim_id, player_id),
        final(st).records@ == old(st).records@,
        final(st).champion_keys@ == old(st).champion_keys@,
        ownership_same(*old(st), *final(st)),
        runtime_same(*old(st), *final(st)),
{
    remove_player_keys(&mut st.counters, sim_id, player_id);
    remove_player_keys(&mut st.flags, sim_id, player_id);
    let keep = |p: &PersistedBuff<B>| -> (b: bool)
        ensures
            b == !(p.sim_id == sim_id && p.player_id == player_id),
        { !(p.sim_id == sim_id && p.player_id == player_id) };
    vec_retain(&mut st.persisted_buffs, keep, Ghost(not_player_buff::<B>(sim_id, player_id)));
}

fn get_record<B>(st: &ModState<B>, sim_id: usize, player_id: usize) -> (r: PlayerRecord)
    ensures
        r == record_of(*st, sim_id, player_id),
{
    match table_get(&st.records, &(sim_id, player_id)) {
        Some(r) => r,
        None => new_record(),
    }
}

fn put_record<B>(st: &mut ModState<B>, sim_id: usize, player_id: usize, r: PlayerRecord)
    ensures
        lookup(final(st).records@, (sim_id, player_id)) == Some(r),
        other_records_same(*old(st), *final(st), sim_id, player_id),
        final(st).champion_keys@ == old(st).champion_keys@,
        final(st).counters@ == old(st).counters@,
        final(st).flags@ == old(st).flags@,
        final(st).persisted_buffs@ == old(st).persisted_buffs@,
        ownership_same(*old(st), *final(st)),
        runtime_same(*old(st), *final(st)),
{
    table_insert(&mut st.records, (sim_id, player_id), r);
}

/// Ensures match-persistent state exists for the player and binds the
/// champion identity `champion_key` to its runtime entity. A different
/// champion than the stored one resets the player's state (keeping the
/// count of identity changes, plus one).
pub fn init<B>(st: &mut ModState<B>, sim_id: usize, player_id: usize, entity_id: usize, champion_key: &str)
    ensures
        init_post(*old(st), *final(st), sim_id, player_id, entity_id, champion_key@),
{
    let pk = (sim_id, player_id);
    let rec = get_record(st, sim_id, player_id);
    let changed = match table_get_ref(&st.champion_keys, &pk) {
        Some(k) => !str_eq(k.as_str(), champion_key),
        None => false,
    };
    let base = if changed {
        remove_player_extras(st, sim_id, player_id);
        PlayerRecord { identity_change_count: inc(rec.identity_change_count), ..new_record() }
    } else {
        rec
    };
    put_record(st, sim_id, player_id, PlayerRecord { last_entity_id: Some(entity_id), ..base });
    table_insert(&mut st.champion_keys, pk, String::from_str(champion_key));
    table_insert(&mut st.entity_owners, (sim_id, entity_id), player_id);
}

/// Resolves the player owning `entity_id` and runs `init` for it; nothing
/// happens when no player owns the entity.
pub fn register_entity<B>(st: &mut ModState<B>, players: &Vec<PlayerInfo>, sim_id: usize, entity_id: usize, champion_key: &str)
    ensures
        match owner_of(*old(st), players@, sim_id, entity_id) {
            Some(p) => init_post(*old(st), *final(st), sim_id, p, entity_id, champion_key@),
            None => player_data_same(*old(st), *final(st)) && ownership_same(*old(st), *final(st)) && runtime_same(*old(st), *final(st)),
        },
{
    match player_for_entity(st, players, sim_id, entity_id) {
        Some(p) => init(st, sim_id, p, entity_id, champion_key),
        None => {},
    }
}

/// The effect of `bind_entity`: the entity is bound to the player; nothing
/// else changes.
pub open spec fn bind_post<B>(a: ModState<B>, b: ModState<B>, sim_id: usize, player_id: usize, entity_id: usize) -> bool {
    &&& forall|k: (usize, usize)| #[trigger] lookup(b.entity_owners@, k) == if k == (sim_id, entity_id) { Some(player_id) } else { lookup(a.entity_owners@, k) }
    &&& player_data_same(a, b)
    &&& b.spawned_units@ == a.spawned_units@
    &&& b.cancelled_effects@ == a.cancelled_effects@
    &&& b.next_spawned_unit_serial == a.next_spawned_unit_serial
    &&& runtime_same(a, b)
}

/// Binds a champion entity to its owning player; no identity or state is
/// reset.
pub fn bind_entity<B>(st: &mut ModState<B>, sim_id: usize, player_id: usize, entity_id: usize)
    ensures
        bind_post(*old(st), *final(st), sim_id, player_id, entity_id),
{
    table_insert(&mut st.entity_owners, (sim_id, entity_id), player_id);
}

// ------------------------------------------------------------------
// Counters and flags
// ------------------------------------------------------------------

/// `a + b`, saturating at the bounds of `i64`.
pub open spec fn sat_add_i64(a: int, b: int) -> i64 {
    if a + b > i64::MAX {
        i64::MAX
    } else if a + b < i64::MIN {
        i64::MIN
    } else {
        (a + b) as i64
    }
}

/// `x`, or 0 when negative.
pub open spec fn non_negative(x: i64) -> i64 {
    if x < 0 { 0 } else { x }
}

fn saturating_add_i64(a: i64, b: i64) -> (r: i64)
    ensures
        r == sat_add_i64(a as int, b as int),
{
    if b > 0 && a > i64::MAX - b {
        i64::MAX
    } else if b < 0 && a < i64::MIN - b {
        i64::MIN
    } else {
        a + b
    }
}

/// The stored value of a named counter, if any.
pub open spec fn stored_counter<B>(st: ModState<B>, sim_id: usize, player_id: usize, name: Seq<char>) -> Option<i64> {
    lookup(st.counters@, (sim_id, player_id, name))
}

/// The value of a named counter (0 when never set).
pub open spec fn counter_of<B>(st: ModState<B>, sim_id: usize, player_id: usize, name: Seq<char>) -> i64 {
    match stored_counter(st, sim_id, player_id, name) {
        Some(v) => v,
        None => 0,
    }
}

/// The value of a named flag (false when never set).
pub open spec fn flag_of<B>(st: ModState<B>, sim_id: usize, player_id: usize, name: Seq<char>) -> bool {
    match lookup(st.flags@, (sim_id, player_id, name)) {
        Some(v) => v,
        None => false,
    }
}

/// Nothing changes.
pub open spec fn all_same<B>(a: ModState<B>, b: ModState<B>) -> bool {
    player_data_same(a, b) && ownership_same(a, b) && runtime_same(a, b)
}

/// The player's record exists (created empty when missing), and only the
/// counter `name` of the player changed, to `value`.
pub open spec fn counter_set_post<B>(a: ModState<B>, b: ModState<B>, sim_id: usize, player_id: usize, name: Seq<char>, value: Option<i64>) -> bool {
    &&& lookup(b.records@, (sim_id, player_id)) == Some(record_of(a, sim_id, player_id))
    &&& other_records_same(a, b, sim_id, player_id)
    &&& forall|k: (usize, usize, Seq<char>)| #[trigger] lookup(b.counters@, k) == if k == (sim_id, player_id, name) { value } else { lookup(a.counters@, k) }
    &&& b.champion_keys@ == a.champion_keys@
    &&& b.flags@ == a.flags@
    &&& b.persisted_buffs@ == a.persisted_buffs@
    &&& ownership_same(a, b)
    &&& runtime_same(a, b)
}

/// The effect of `add_counter`: the counter of the entity's player becomes
/// its old value plus `delta`, saturating, and never below zero; nothing
/// changes when no player owns the entity.
pub open spec fn add_counter_post<B>(a: ModState<B>, b: ModState<B>, players: Seq<PlayerInfo>, sim_id: usize, entity_id: usize, name: Seq<char>, delta: i64) -> bool {
    match owner_of(a, players, sim_id, entity_id) {
        Some(p) => counter_set_post(a, b, sim_id, p, name,
            Some(non_negative(sat_add_i64(counter_of(a, sim_id, p, name) as int, delta as int)))),
        None => all_same(a, b),
    }
}

/// The effect of `reset_counter`: the counter of the entity's player is
/// forgotten; nothing else changes.
pub open spec fn reset_counter_post<B>(a: ModState<B>, b: ModState<B>, players: Seq<PlayerInfo>, sim_id: usize, entity_id: usize, name: Seq<char>) -> bool {
    match owner_of(a, players, sim_id, entity_id) {
        Some(p) => {
            &&& forall|k: (usize, usize, Seq<char>)| #[trigger] lookup(b.counters@, k) == if k == (sim_id, p, name) { None } else { lookup(a.counters@, k) }
            &&& b.records@ == a.records@
            &&& b.champion_keys@ == a.champion_keys@
            &&& b.flags@ == a.flags@
            &&& b.persisted_buffs@ == a.persisted_buffs@
            &&& ownership_same(a, b)
            &&& runtime_same(a, b)
        },
        None => all_same(a, b),
    }
}

/// The effect of `set_flag`: the flag of the entity's player is set to
/// `value` (its record created when missing); nothing else changes.
pub open spec fn set_flag_post<B>(a: ModState<B>, b: ModState<B>, players: Seq<PlayerInfo>, sim_id: usize, entity_id: usize, name: Seq<char>, value: bool) -> bool {
    match owner_of(a, players, sim_id, entity_id) {
        Some(p) => {
            &&& lookup(b.records@, (sim_id, p)) == Some(record_of(a, sim_id, p))
            &&& other_records_same(a, b, sim_id, p)
            &&& forall|k: (usize, usize, Seq<char>)| #[trigger] lookup(b.flags@, k) == if k == (sim_id, p, name) { Some(value) } else { lookup(a.flags@, k) }
            &&& b.champion_keys@ == a.champion_keys@
            &&& b.counters@ == a.counters@
            &&& b.persisted_buffs@ == a.persisted_buffs@
            &&& ownership_same(a, b)
            &&& runtime_same(a, b)
        },
        None => all_same(a, b),
    }
}

/// What `counter_value` reads for an entity: its player's counter, 0 when
/// no player owns it.
pub open spec fn counter_read<B>(st: ModState<B>, players: Seq<PlayerInfo>, sim_id: usize, entity_id: usize, name: Seq<char>) -> i64 {
    match owner_of(st, players, sim_id, entity_id) {
        Some(p) => counter_of(st, sim_id, p, name),
        None => 0,
    }
}

/// What `flag_is_set` reads for an entity: its player's flag, false when no
/// player owns it.
pub open spec fn flag_read<B>(st: ModState<B>, players: Seq<PlayerInfo>, sim_id: usize, entity_id: usize, name: Seq<char>) -> bool {
    match owner_of(st, players, sim_id, entity_id) {
        Some(p) => flag_of(st, sim_id, p, name),
        None => false,
    }
}

fn ensure_record<B>(st: &mut ModState<B>, sim_id: usize, player_id: usize)
    ensures
        lookup(final(st).records@, (sim_id, player_id)) == Some(record_of(*old(st), sim_id, player_id)),
        other_records_same(*old(st), *final(st), sim_id, player_id),
        final(st).champion_keys@ == old(st).champion_keys@,
        final(st).counters@ == old(st).counters@,
        final(st).flags@ == old(st).flags@,
        final(st).persisted_buffs@ == old(st).persisted_buffs@,
        ownership_same(*old(st), *final(st)),
        runtime_same(*old(st), *final(st)),
{
    let r = get_record(st, sim_id, player_id);
    put_record(st, sim_id, player_id, r);
}

fn counter_key(sim_id: usize, player_id: usize, name: &str) -> (r: (usize, usize, String))
    ensures
        r@ == (sim_id, player_id, name@),
{
    (sim_id, player_id, String::from_str(name))
}

/// Adds `delta` to the named counter of the entity's player (saturating,
/// never below zero). Nothing happens when no player owns the entity.
pub fn add_counter<B>(st: &mut ModState<B>, players: &Vec<PlayerInfo>, sim_id: usize, entity_id: usize, name: &str, delta: i64)
    ensures
        add_counter_post(*old(st), *final(st), players@, sim_id, entity_id, name@, delta),
{
    let Some(p) = player_for_entity(st, players, sim_id, entity_id) else { return; };
    ensure_record(st, sim_id, p);
    let key = counter_key(sim_id, p, name);
    let current = match table_get(&st.counters, &key) {
        Some(v) => v,
        None => 0,
    };
    let sum = saturating_add_i64(current, delta);
    let next = if sum < 0 { 0 } else { sum };
    table_insert(&mut st.counters, key, next);
}

/// Removes the named counter of the entity's player (it reads as 0 again).
pub fn reset_counter<B>(st: &mut ModState<B>, players: &Vec<PlayerInfo>, sim_id: usize, entity_id: usize, name: &str)
    ensures
        reset_counter_post(*old(st), *final(st), players@, sim_id, entity_id, name@),
{
    let Some(p) = player_for_entity(st, players, sim_id, entity_id) else { return; };
    let key = counter_key(sim_id, p, name);
    table_remove(&mut st.counters, &key);
}

/// Sets the named flag of the entity's player.
pub fn set_flag<B>(st: &mut ModState<B>, players: &Vec<PlayerInfo>, sim_id: usize, entity_id: usize, name: &str, value: bool)
    ensures
        set_flag_post(*old(st), *final(st), players@, sim_id, entity_id, name@, value),
{
    let Some(p) = player_for_entity(st, players, sim_id, entity_id) else { return; };
    ensure_record(st, sim_id, p);
    let key = counter_key(sim_id, p, name);
    table_insert(&mut st.flags, key, value);
}

/// Whether the named counter of the entity's player is at least `count`
/// (false when no player owns the entity).
pub fn counter_at_least<B>(st: &ModState<B>, players: &Vec<PlayerInfo>, sim_id: usize, entity_id: usize, name: &str, count: usize) -> (r: bool)
    ensures
        r == match owner_of(*st, players@, sim_id, entity_id) {
            Some(p) => counter_of(*st, sim_id, p, name@) >= count as i64,
            None => false,
        },
{
    let Some(p) = player_for_entity(st, players, sim_id, entity_id) else { return false; };
    let v = match table_get(&st.counters, &counter_key(sim_id, p, name)) {
        Some(v) => v,
        None => 0,
    };
    v >= count as i64
}

/// The current value of the named counter of the entity's player (0 if
/// never set or when no player owns the entity).
pub fn counter_value<B>(st: &ModState<B>, players: &Vec<PlayerInfo>, sim_id: usize, entity_id: usize, name: &str) -> (r: i64)
    ensures
        r == counter_read(*st, players@, sim_id, entity_id, name@),
{
    let Some(p) = player_for_entity(st, players, sim_id, entity_id) else { return 0; };
    match table_get(&st.counters, &counter_key(sim_id, p, name)) {
        Some(v) => v,
        None => 0,
    }
}

/// Whether the named flag of the entity's player is set.
pub fn flag_is_set<B>(st: &ModState<B>, players: &Vec<PlayerInfo>, sim_id: usize, entity_id: usize, name: &str) -> (r: bool)
    ensures
        r == flag_read(*st, players@, sim_id, entity_id, name@),
{
    let Some(p) = player_for_entity(st, players, sim_id, entity_id) else { return false; };
    match table_get(&st.flags, &counter_key(sim_id, p, name)) {
        Some(v) => v,
        None => false,
    }
}

/// `current + delta` clamped at 0, from the stored absolute stack when one
/// was captured.
pub open spec fn spec_next_stack(base: usize, delta: i64) -> usize {
    non_negative(sat_add_i64((base as i64) as int, delta as int)) as usize
}

/// The effect of `next_persistent_modify_stats_stack`: `delta` applied to
/// the player's stored absolute stack (or to `current_stack` before the
/// first capture), at least zero, is returned and stored; without a player
/// it is applied to `current_stack` and nothing is stored.
pub open spec fn next_stack_post<B>(a: ModState<B>, b: ModState<B>, players: Seq<PlayerInfo>, sim_id: usize, entity_id: usize, current_stack: usize, delta: i64, r: usize) -> bool {
    match owner_of(a, players, sim_id, entity_id) {
        Some(p) => {
            let rec = record_of(a, sim_id, p);
            let base = match rec.persistent_modify_stats_stack {
                Some(s) => s,
                None => current_stack,
            };
            &&& r == spec_next_stack(base, delta)
            &&& lookup(b.records@, (sim_id, p)) == Some(PlayerRecord { persistent_modify_stats_stack: Some(r), ..rec })
            &&& other_records_same(a, b, sim_id, p)
            &&& b.champion_keys@ == a.champion_keys@
            &&& b.counters@ == a.counters@
            &&& b.flags@ == a.flags@
            &&& b.persisted_buffs@ == a.persisted_buffs@
            &&& ownership_same(a, b)
            &&& runtime_same(a, b)
        },
        None => r == spec_next_stack(current_stack, delta) && all_same(a, b),
    }
}

/// The next persistent ModifyStats stack: `delta` applied to the stored
/// absolute stack (or to `current_stack` before the first capture), at
/// least zero; the result is stored for the player.
pub fn next_persistent_modify_stats_stack<B>(
    st: &mut ModState<B>,
    players: &Vec<PlayerInfo>,
    sim_id: usize,
    entity_id: usize,
    current_stack: usize,
    delta: i64,
) -> (r: usize)
    ensures
        next_stack_post(*old(st), *final(st), players@, sim_id, entity_id, current_stack, delta, r),
{
    let Some(p) = player_for_entity(st, players, sim_id, entity_id) else {
        let sum = saturating_add_i64(current_stack as i64, delta);
        return (if sum < 0 { 0 } else { sum }) as usize;
    };
    let rec = get_record(st, sim_id, p);
    let base = match rec.persistent_modify_stats_stack {
        Some(s) => s,
        None => current_stack,
    };
    let sum = saturating_add_i64(base as i64, delta);
    let next = (if sum < 0 { 0 } else { sum }) as usize;
    put_record(st, sim_id, p, PlayerRecord { persistent_modify_stats_stack: Some(next), ..rec });
    next
}

/// The first player with id `player_id`, if any.
pub open spec fn find_player(players: Seq<PlayerInfo>, player_id: usize) -> Option<PlayerInfo> {
    if exists|i: int| 0 <= i < players.len() && players[i].id == player_id && forall|j: int| 0 <= j < i ==> (#[trigger] players[j]).id != player_id {
        Some(players[choose|i: int| 0 <= i < players.len() && players[i].id == player_id && forall|j: int| 0 <= j < i ==> (#[trigger] players[j]).id != player_id])
    } else {
        None
    }
}

fn get_player(players: &Vec<PlayerInfo>, player_id: usize) -> (r: Option<&PlayerInfo>)
    ensures
        match find_player(players@, player_id) {
            Some(p) => r matches Some(q) && *q == p,
            None => r is None,
        },
{
    let mut i: usize = 0;
    while i < players.len()
        invariant
            i <= players@.len(),
            forall|j: int| 0 <= j < i ==> (#[trigger] players@[j]).id != player_id,
        decreases players.len() - i,
    {
        if players[i].id == player_id {
            proof {
                let c = choose|c: int| 0 <= c < players@.len() && players@[c].id == player_id && forall|j: int| 0 <= j < c ==> (#[trigger] players@[j]).id != player_id;
                if c < i {
                    assert(players@[c].id != player_id);
                }
                if i < c {
                    assert(players@[i as int].id != player_id);
                }
            }
            return Some(&players[i]);
        }
        i = i + 1;
    }
    None
}

/// The level of the entity's player, 1 when it cannot be resolved.
pub fn level_for_entity<B>(st: &ModState<B>, players: &Vec<PlayerInfo>, sim_id: usize, entity_id: usize) -> (r: usize)
    ensures
        r == match owner_of(*st, players@, sim_id, entity_id) {
            Some(p) => match find_player(players@, p) {
                Some(info) => info.level,
                None => 1,
            },
            None => 1,
        },
{
    match player_for_entity(st, players, sim_id, entity_id) {
        Some(p) => match get_player(players, p) {
            Some(info) => info.level,
            None => 1,
        },
        None => 1,
    }
}

// ------------------------------------------------------------------
// Base stats, lifecycle, diagnostics
// ------------------------------------------------------------------

/// Only the record of `(sim_id, player_id)` changed, to `r`.
pub open spec fn record_set_post<B>(a: ModState<B>, b: ModState<B>, sim_id: usize, player_id: usize, r: PlayerRecord) -> bool {
    &&& lookup(b.records@, (sim_id, player_id)) == Some(r)
    &&& other_records_same(a, b, sim_id, player_id)
    &&& b.champion_keys@ == a.champion_keys@
    &&& b.counters@ == a.counters@
    &&& b.flags@ == a.flags@
    &&& b.persisted_buffs@ == a.persisted_buffs@
    &&& ownership_same(a, b)
    &&& runtime_same(a, b)
}

/// The effect of `remember_base_stat`.
pub open spec fn remember_post<B>(a: ModState<B>, b: ModState<B>, players: Seq<PlayerInfo>, sim_id: usize, entity_id: usize, stat: Stat, entity_alive: bool) -> bool {
    match owner_of(a, players, sim_id, entity_id) {
        Some(p) => {
            let rec = record_of(a, sim_id, p);
            record_set_post(a, b, sim_id, p, PlayerRecord {
                persistent_base_stat: Some(stat),
                persistent_modify_stats_stack: Some(stat.stack),
                last_entity_id: Some(entity_id),
                was_alive: entity_alive,
                entity_missing: false,
                persistent_capture_count: sat_inc(rec.persistent_capture_count),
                ..rec
            })
        },
        None => all_same(a, b),
    }
}

/// Remembers the latest base-stat snapshot of a persistent ModifyStats
/// effect for the entity's player, with its stack, the entity and whether
/// it is alive; counts one more capture.
pub fn remember_base_stat<B>(st: &mut ModState<B>, players: &Vec<PlayerInfo>, sim_id: usize, entity_id: usize, stat: Stat, entity_alive: bool)
    ensures
        remember_post(*old(st), *final(st), players@, sim_id, entity_id, stat, entity_alive),
{
    let Some(p) = player_for_entity(st, players, sim_id, entity_id) else { return; };
    let rec = get_record(st, sim_id, p);
    put_record(st, sim_id, p, PlayerRecord {
        persistent_base_stat: Some(stat),
        persistent_modify_stats_stack: Some(stat.stack),
        last_entity_id: Some(entity_id),
        was_alive: entity_alive,
        entity_missing: false,
        persistent_capture_count: inc(rec.persistent_capture_count),
        ..rec
    });
}

/// The remembered base stat of the player, to be applied to its entity.
pub fn restore_persistent_base_stat<B>(st: &ModState<B>, sim_id: usize, player_id: usize) -> (r: Option<Stat>)
    ensures
        r == record_of(*st, sim_id, player_id).persistent_base_stat,
{
    get_record(st, sim_id, player_id).persistent_base_stat
}

/// The base stat to re-apply: the remembered one, when the live stack fell
/// below the persisted stack.
pub open spec fn refresh_result<B>(st: ModState<B>, sim_id: usize, player_id: usize, current_stack: usize) -> Option<Stat> {
    let rec = record_of(st, sim_id, player_id);
    match rec.persistent_modify_stats_stack {
        Some(s) => if current_stack < s { rec.persistent_base_stat } else { None },
        None => None,
    }
}

/// After the persisted buffs were restored: the base stat to re-apply when
/// the entity's live stack fell below the persisted stack.
pub fn refresh_persistent_state<B>(st: &ModState<B>, sim_id: usize, player_id: usize, current_stack: usize) -> (r: Option<Stat>)
    ensures
        r == refresh_result(*st, sim_id, player_id, current_stack),
{
    let rec = get_record(st, sim_id, player_id);
    match rec.persistent_modify_stats_stack {
        Some(s) => if current_stack < s { rec.persistent_base_stat } else { None },
        None => None,
    }
}

/// What the host must do for a player after a lifecycle update.
#[derive(Clone, Copy, Debug)]
pub struct LifecycleActions {
    /// Top up the persisted buffs on the player's entity.
    pub top_up_buffs: bool,
    /// The remembered base stat to apply to the player's entity again.
    pub restore_base_stat: Option<Stat>,
}

/// The remembered base stat to apply again when the player, alive with
/// entity `entity_id`, has just respawned: it was dead, its entity was
/// missing, or the entity is a new one.
pub open spec fn base_stat_to_restore<B>(st: ModState<B>, sim_id: usize, player_id: usize, entity_id: usize, alive: bool) -> Option<Stat> {
    let rec = record_of(st, sim_id, player_id);
    if alive && (!rec.was_alive || rec.entity_missing || rec.last_entity_id != Some(entity_id)) {
        rec.persistent_base_stat
    } else {
        None
    }
}

/// The effect of `update_player_lifecycle`.
pub open spec fn lifecycle_post<B>(a: ModState<B>, b: ModState<B>, sim_id: usize, player_id: usize, entity_id: Option<usize>, alive: bool, r: LifecycleActions) -> bool {
    let rec = record_of(a, sim_id, player_id);
    match entity_id {
        Some(e) => {
            &&& r.top_up_buffs == alive
            &&& r.restore_base_stat == base_stat_to_restore(a, sim_id, player_id, e, alive)
            &&& record_set_post(a, b, sim_id, player_id,
                PlayerRecord { was_alive: alive, last_entity_id: Some(e), entity_missing: false, ..rec })
        },
        None => {
            &&& !r.top_up_buffs
            &&& r.restore_base_stat is None
            &&& record_set_post(a, b, sim_id, player_id, PlayerRecord { was_alive: alive, entity_missing: true, ..rec })
        },
    }
}

/// Records the player's liveness for this tick. Without an entity the gap
/// is remembered (the next entity counts as a respawn); with one, the
/// entity is recorded. While the player has an entity and is alive, its
/// persisted buffs must be topped up; on a respawn (dead to alive, after a
/// missing entity, or with a new entity) the remembered base stat must be
/// applied again.
pub fn update_player_lifecycle<B>(st: &mut ModState<B>, sim_id: usize, player_id: usize, entity_id: Option<usize>, alive: bool) -> (r: LifecycleActions)
    ensures
        lifecycle_post(*old(st), *final(st), sim_id, player_id, entity_id, alive, r),
{
    let rec = get_record(st, sim_id, player_id);
    match entity_id {
        Some(e) => {
            let respawned = !rec.was_alive || rec.entity_missing || rec.last_entity_id != Some(e);
            let restore_base_stat = if alive && respawned { rec.persistent_base_stat } else { None };
            put_record(st, sim_id, player_id, PlayerRecord { was_alive: alive, last_entity_id: Some(e), entity_missing: false, ..rec });
            LifecycleActions { top_up_buffs: alive, restore_base_stat }
        },
        None => {
            put_record(st, sim_id, player_id, PlayerRecord { was_alive: alive, entity_missing: true, ..rec });
            LifecycleActions { top_up_buffs: false, restore_base_stat: None }
        },
    }
}

/// Persistence counters: captures, restore events, restored buff
/// applications, missed owner lookups and champion identity changes.
pub fn persistence_diagnostics<B>(st: &ModState<B>, sim_id: usize, player_id: usize) -> (r: (usize, usize, usize, usize, usize))
    ensures
        ({
            let rec = record_of(*st, sim_id, player_id);
            r == (rec.persistent_capture_count, rec.restore_count, rec.restored_buff_count, st.missed_owner_lookups, rec.identity_change_count)
        }),
{
    let rec = get_record(st, sim_id, player_id);
    (rec.persistent_capture_count, rec.restore_count, rec.restored_buff_count, st.missed_owner_lookups, rec.identity_change_count)
}

// ------------------------------------------------------------------
// Kill-log takedowns
// ------------------------------------------------------------------

/// The entry credits the team's player in lane `lane` with a kill or an
/// assist.
pub open spec fn credits(e: KillLogEntry, team: usize, lane: u32) -> bool {
    e.killer_team == team && (e.killer_position == lane || e.assist_positions@.contains(lane))
}

/// Number of entries of `log` crediting the team's lane.
pub open spec fn credited_count(log: Seq<Option<KillLogEntry>>, team: usize, lane: u32) -> nat
    decreases log.len(),
{
    if log.len() == 0 {
        0
    } else {
        credited_count(log.drop_last(), team, lane) + match log.last() {
            Some(e) => if credits(e, team, lane) { 1nat } else { 0nat },
            None => 0nat,
        }
    }
}

/// Name of the counter remembering how far the kill log was read.
pub open spec fn kill_log_index_key(counter_name: Seq<char>) -> Seq<char> {
    counter_name + "__kill_log_index"@
}

fn entry_credits(e: &KillLogEntry, team: usize, lane: u32) -> (r: bool)
    ensures
        r == credits(*e, team, lane),
{
    if e.killer_team != team {
        return false;
    }
    if e.killer_position == lane {
        return true;
    }
    let mut i: usize = 0;
    while i < e.assist_positions.len()
        invariant
            i <= e.assist_positions@.len(),
            e.killer_team == team,
            forall|j: int| 0 <= j < i ==> e.assist_positions@[j] != lane,
        decreases e.assist_positions.len() - i,
    {
        if e.assist_positions[i] == lane {
            assert(e.assist_positions@[i as int] == lane);
            assert(e.assist_positions@.contains(lane));
            return true;
        }
        i = i + 1;
    }
    false
}

/// The count of new credited entries fits in a `u32` (counting them
/// overflows otherwise).
pub open spec fn takedown_fits<B>(st: ModState<B>, players: Seq<PlayerInfo>, sim_id: usize, entity_id: usize, counter_name: Seq<char>, log: Seq<Option<KillLogEntry>>) -> bool {
    match owner_of(st, players, sim_id, entity_id) {
        Some(p) => match find_player(players, p) {
            Some(info) => match info.lane {
                Some(lane) => {
                    let last = non_negative(counter_of(st, sim_id, p, kill_log_index_key(counter_name))) as usize;
                    log.len() <= last || credited_count(log.subrange(last as int, log.len() as int), info.team, lane) <= u32::MAX
                },
                None => true,
            },
            None => true,
        },
        None => true,
    }
}

proof fn lemma_credited_prefix(s: Seq<Option<KillLogEntry>>, k: int, team: usize, lane: u32)
    requires
        0 <= k <= s.len(),
    ensures
        credited_count(s.take(k), team, lane) <= credited_count(s, team, lane),
    decreases s.len(),
{
    if k < s.len() {
        assert(s.take(k) =~= s.drop_last().take(k));
        lemma_credited_prefix(s.drop_last(), k, team, lane);
    } else {
        assert(s.take(k) =~= s);
    }
}

/// The effect of `takedown_stack_delta`.
pub open spec fn takedown_post<B>(a: ModState<B>, b: ModState<B>, players: Seq<PlayerInfo>, sim_id: usize, entity_id: usize, counter_name: Seq<char>, log: Seq<Option<KillLogEntry>>, r: u32) -> bool {
    match owner_of(a, players, sim_id, entity_id) {
        None => r == 0 && all_same(a, b),
        Some(p) => match find_player(players, p) {
            None => r == 0 && all_same(a, b),
            Some(info) => match info.lane {
                None => r == 0 && all_same(a, b),
                Some(lane) => {
                    let key = kill_log_index_key(counter_name);
                    let last = non_negative(counter_of(a, sim_id, p, key)) as usize;
                    let total = log.len();
                    if total <= last {
                        r == 0 && all_same(a, b)
                    } else {
                        &&& r == credited_count(log.subrange(last as int, total as int), info.team, lane)
                        &&& counter_set_post(a, b, sim_id, p, key, Some(total as i64))
                    }
                },
            },
        },
    }
}

/// Whether the new credited entries of `kill_log` can be counted in a
/// `u32`, the condition under which `takedown_stack_delta` may be called.
pub fn takedown_fits_for<B>(
    st: &ModState<B>,
    players: &Vec<PlayerInfo>,
    sim_id: usize,
    entity_id: usize,
    counter_name: &str,
    kill_log: &Vec<Option<KillLogEntry>>,
) -> (r: bool)
    ensures
        r == takedown_fits(*st, players@, sim_id, entity_id, counter_name@, kill_log@),
{
    let Some(p) = player_for_entity(st, players, sim_id, entity_id) else { return true; };
    let Some(info) = get_player(players, p) else { return true; };
    let Some(lane) = info.lane else { return true; };
    let team = info.team;
    let name = String::from_str(counter_name).concat("__kill_log_index");
    let key = (sim_id, p, name);
    let stored = match table_get(&st.counters, &key) {
        Some(v) => v,
        None => 0,
    };
    let last = (if stored < 0 { 0 } else { stored }) as usize;
    let total = kill_log.len();
    if total <= last {
        return true;
    }
    let mut count: usize = 0;
    let mut i = last;
    while i < total
        invariant
            last <= i <= total,
            total == kill_log@.len(),
            count <= i - last,
            count == credited_count(kill_log@.subrange(last as int, i as int), team, lane),
        decreases total - i,
    {
        proof {
            assert(kill_log@.subrange(last as int, i as int + 1).drop_last() =~= kill_log@.subrange(last as int, i as int));
        }
        if let Some(e) = &kill_log[i] {
            if entry_credits(e, team, lane) {
                count = count + 1;
            }
        }
        i = i + 1;
    }
    count as u64 <= u32::MAX as u64
}

/// Counts the kill-log entries since the last check that credit the
/// entity's player (same team, its lane as killer or assist), and remembers
/// the new read position. Returns 0 when the player, its lane or new
/// entries are missing.
pub fn takedown_stack_delta<B>(
    st: &mut ModState<B>,
    players: &Vec<PlayerInfo>,
    sim_id: usize,
    entity_id: usize,
    counter_name: &str,
    kill_log: &Vec<Option<KillLogEntry>>,
) -> (r: u32)
    requires
        takedown_fits(*old(st), players@, sim_id, entity_id, counter_name@, kill_log@),
    ensures
        takedown_post(*old(st), *final(st), players@, sim_id, entity_id, counter_name@, kill_log@, r),
{
    let Some(p) = player_for_entity(st, players, sim_id, entity_id) else { return 0; };
    let Some(info) = get_player(players, p) else { return 0; };
    let Some(lane) = info.lane else { return 0; };
    let team = info.team;
    let name = String::from_str(counter_name).concat("__kill_log_index");
    let key = (sim_id, p, name);
    let stored = match table_get(&st.counters, &key) {
        Some(v) => v,
        None => 0,
    };
    let last = (if stored < 0 { 0 } else { stored }) as usize;
    let total = kill_log.len();
    if total <= last {
        return 0;
    }
    let mut gained: u32 = 0;
    let mut i = last;
    let ghost all_new = kill_log@.subrange(last as int, total as int);
    while i < total
        invariant
            last <= i <= total,
            total == kill_log@.len(),
            all_new == kill_log@.subrange(last as int, total as int),
            credited_count(all_new, team, lane) <= u32::MAX,
            gained == credited_count(kill_log@.subrange(last as int, i as int), team, lane),
        decreases total - i,
    {
        proof {
            assert(kill_log@.subrange(last as int, i as int + 1).drop_last() =~= kill_log@.subrange(last as int, i as int));
            assert(kill_log@.subrange(last as int, i as int + 1) =~= all_new.take(i - last + 1));
            lemma_credited_prefix(all_new, i - last + 1, team, lane);
        }
        if let Some(e) = &kill_log[i] {
            if entry_credits(e, team, lane) {
                gained = gained + 1;
            }
        }
        i = i + 1;
    }
    ensure_record(st, sim_id, p);
    table_insert(&mut st.counters, key, total as i64);
    gained
}

// ------------------------------------------------------------------
// Clearing a player
// ------------------------------------------------------------------

/// Owner bindings that do not point at the player.
pub open spec fn owner_not_player(sim_id: usize, player_id: usize) -> spec_fn(((usize, usize), usize)) -> bool {
    |e: ((usize, usize), usize)| !(e.0.0 == sim_id && e.1 == player_id)
}

/// Spawned units not owned by the player.
pub open spec fn unit_not_of_player(sim_id: usize, player_id: usize) -> spec_fn((usize, SpawnedUnit)) -> bool {
    |u: (usize, SpawnedUnit)| !(u.0 == sim_id && u.1.owner_id == player_id)
}

/// Cancelled effects not owned by the player.
pub open spec fn cancel_not_of_player(sim_id: usize, player_id: usize) -> spec_fn((usize, usize, usize)) -> bool {
    |c: (usize, usize, usize)| !(c.0 == sim_id && c.1 == player_id)
}

/// Forgets everything recorded for the player in this simulation: its
/// state, the entities bound to it, its spawned units and their
/// cancellations.
pub fn clear_player<B>(st: &mut ModState<B>, sim_id: usize, player_id: usize)
    ensures
        forall|k: (usize, usize)| #[trigger] lookup(final(st).records@, k) == if k == (sim_id, player_id) { None } else { lookup(old(st).records@, k) },
        forall|k: (usize, usize)| #[trigger] lookup(final(st).champion_keys@, k) == if k == (sim_id, player_id) { None } else { lookup(old(st).champion_keys@, k) },
        player_extras_removed(*old(st), *final(st), sim_id, player_id),
        final(st).entity_owners@ == old(st).entity_owners@.filter(owner_not_player(sim_id, player_id)),
        final(st).spawned_units@ == old(st).spawned_units@.filter(unit_not_of_player(sim_id, player_id)),
        final(st).cancelled_effects@ == old(st).cancelled_effects@.filter(cancel_not_of_player(sim_id, player_id)),
        final(st).next_spawned_unit_serial == old(st).next_spawned_unit_serial,
        runtime_same(*old(st), *final(st)),
{
    table_remove(&mut st.records, &(sim_id, player_id));
    table_remove(&mut st.champion_keys, &(sim_id, player_id));
    remove_player_extras(st, sim_id, player_id);
    let keep_owner = |e: &((usize, usize), usize)| -> (b: bool)
        ensures
            b == !(e.0.0 == sim_id && e.1 == player_id),
        { !(e.0.0 == sim_id && e.1 == player_id) };
    vec_retain(&mut st.entity_owners, keep_owner, Ghost(owner_not_player(sim_id, player_id)));
    let keep_unit = |u: &(usize, SpawnedUnit)| -> (b: bool)
        ensures
            b == !(u.0 == sim_id && u.1.owner_id == player_id),
        { !(u.0 == sim_id && u.1.owner_id == player_id) };
    vec_retain(&mut st.spawned_units, keep_unit, Ghost(unit_not_of_player(sim_id, player_id)));
    let keep_cancel = |c: &(usize, usize, usize)| -> (b: bool)
        ensures
            b == !(c.0 == sim_id && c.1 == player_id),
        { !(c.0 == sim_id && c.1 == player_id) };
    vec_retain(&mut st.cancelled_effects, keep_cancel, Ghost(cancel_not_of_player(sim_id, player_id)));
}

// ------------------------------------------------------------------
// Creating and clearing
// ------------------------------------------------------------------

impl<B> ModState<B> {
    /// Empty bookkeeping; spawned unit serials and tracker ids start at 1.
    pub fn new() -> (r: Self)
        ensures
            r.records@.len() == 0,
            r.champion_keys@.len() == 0,
            r.counters@.len() == 0,
            r.flags@.len() == 0,
            r.persisted_buffs@.len() == 0,
            r.entity_owners@.len() == 0,
            r.spawned_units@.len() == 0,
            r.cancelled_effects@.len() == 0,
            r.next_spawned_unit_serial == 1,
            r.missed_owner_lookups == 0,
            r.periodics@.len() == 0,
            r.aggregation_scopes@.len() == 0,
            r.buff_vfx_by_sim@.len() == 0,
            r.buff_vfx_starts@.len() == 0,
            r.latest_buff_vfx_sim == 0,
            r.projectile_view_effects@.len() == 0,
            r.next_projectile_view_effect_id == 1,
    {
        ModState {
            records: Vec::new(),
            champion_keys: Vec::new(),
            counters: Vec::new(),
            flags: Vec::new(),
            persisted_buffs: Vec::new(),
            entity_owners: Vec::new(),
            spawned_units: Vec::new(),
            cancelled_effects: Vec::new(),
            next_spawned_unit_serial: 1,
            missed_owner_lookups: 0,
            periodics: PeriodicStore::new(),
            aggregation_scopes: Vec::new(),
            buff_vfx_by_sim: Vec::new(),
            buff_vfx_starts: Vec::new(),
            latest_buff_vfx_sim: 0,
            projectile_view_effects: Vec::new(),
            next_projectile_view_effect_id: 1,
        }
    }
}

/// Pairs keyed outside simulation `sim_id`.
pub open spec fn pair_not_sim(sim_id: usize) -> spec_fn((usize, usize)) -> bool {
    |k: (usize, usize)| k.0 != sim_id
}

/// Named keys outside simulation `sim_id`.
pub open spec fn named_not_sim(sim_id: usize) -> spec_fn((usize, usize, Seq<char>)) -> bool {
    |k: (usize, usize, Seq<char>)| k.0 != sim_id
}

/// Persisted buffs outside simulation `sim_id`.
pub open spec fn buff_not_sim<B>(sim_id: usize) -> spec_fn(PersistedBuff<B>) -> bool {
    |p: PersistedBuff<B>| p.sim_id != sim_id
}

/// Spawned units outside simulation `sim_id`.
pub open spec fn unit_not_sim(sim_id: usize) -> spec_fn((usize, SpawnedUnit)) -> bool {
    |u: (usize, SpawnedUnit)| u.0 != sim_id
}

/// Cancellations outside simulation `sim_id`.
pub open spec fn cancel_not_sim(sim_id: usize) -> spec_fn((usize, usize, usize)) -> bool {
    |c: (usize, usize, usize)| c.0 != sim_id
}

/// Aggregation scopes outside simulation `sim_id`.
pub open spec fn scope_not_sim(sim_id: usize) -> spec_fn(SpawnAggregationScope) -> bool {
    |s: SpawnAggregationScope| s.sim_id != sim_id
}

/// What `clear_sim` leaves: nothing of simulation `sim_id` in the player
/// data, ownership, periodic channels, aggregation scopes and buff visuals,
/// everything of the other simulations, including the process-wide count
/// of missed owner lookups that they read.
pub open spec fn cleared_sim<B>(a: ModState<B>, b: ModState<B>, sim_id: usize) -> bool {
    &&& forall|k: (usize, usize)| #[trigger] lookup(b.records@, k) == if k.0 == sim_id { None } else { lookup(a.records@, k) }
    &&& forall|k: (usize, usize)| #[trigger] lookup(b.champion_keys@, k) == if k.0 == sim_id { None } else { lookup(a.champion_keys@, k) }
    &&& forall|k: (usize, usize, Seq<char>)| #[trigger] lookup(b.counters@, k) == if k.0 == sim_id { None } else { lookup(a.counters@, k) }
    &&& forall|k: (usize, usize, Seq<char>)| #[trigger] lookup(b.flags@, k) == if k.0 == sim_id { None } else { lookup(a.flags@, k) }
    &&& b.persisted_buffs@ == a.persisted_buffs@.filter(buff_not_sim::<B>(sim_id))
    &&& forall|k: (usize, usize)| #[trigger] lookup(b.entity_owners@, k) == if k.0 == sim_id { None } else { lookup(a.entity_owners@, k) }
    &&& b.spawned_units@ == a.spawned_units@.filter(unit_not_sim(sim_id))
    &&& b.cancelled_effects@ == a.cancelled_effects@.filter(cancel_not_sim(sim_id))
    &&& b.next_spawned_unit_serial == a.next_spawned_unit_serial
    &&& b.periodics@ == a.periodics@.filter(clear_pred(sim_id, None))
    &&& b.aggregation_scopes@ == a.aggregation_scopes@.filter(scope_not_sim(sim_id))
    &&& forall|k: usize| #[trigger] lookup(b.buff_vfx_by_sim@, k) == if k == sim_id { None } else { lookup(a.buff_vfx_by_sim@, k) }
    &&& forall|k: (usize, usize, Seq<char>)| #[trigger] lookup(b.buff_vfx_starts@, k) == if k.0 == sim_id { None } else { lookup(a.buff_vfx_starts@, k) }
    &&& b.latest_buff_vfx_sim == a.latest_buff_vfx_sim
    &&& b.missed_owner_lookups == a.missed_owner_lookups
    &&& b.projectile_view_effects@ == a.projectile_view_effects@
    &&& b.next_projectile_view_effect_id == a.next_projectile_view_effect_id
}

fn remove_sim_pairs<V>(t: &mut Vec<((usize, usize), V)>, sim_id: usize)
    ensures
        forall|k: (usize, usize)| #[trigger] lookup(final(t)@, k) == if k.0 == sim_id { None } else { lookup(old(t)@, k) },
{
    let ghost s = t@;
    let keep = |e: &((usize, usize), V)| -> (b: bool)
        ensures
            b == ((e.0).0 != sim_id),
        { (e.0).0 != sim_id };
    vec_retain(t, keep, Ghost(key_pred::<(usize, usize), V>(pair_not_sim(sim_id))));
    proof {
        assert forall|k: (usize, usize)| #[trigger] lookup(t@, k) == if k.0 == sim_id { None } else { lookup(s, k) } by {
            lemma_lookup_filter(s, pair_not_sim(sim_id), k);
        }
    }
}

fn remove_sim_named<V>(t: &mut Vec<((usize, usize, String), V)>, sim_id: usize)
    ensures
        forall|k: (usize, usize, Seq<char>)| #[trigger] lookup(final(t)@, k) == if k.0 == sim_id { None } else { lookup(old(t)@, k) },
{
    let ghost s = t@;
    let keep = |e: &((usize, usize, String), V)| -> (b: bool)
        ensures
            b == ((e.0).0 != sim_id),
        { (e.0).0 != sim_id };
    vec_retain(t, keep, Ghost(key_pred::<(usize, usize, String), V>(named_not_sim(sim_id))));
    proof {
        assert forall|k: (usize, usize, Seq<char>)| #[trigger] lookup(t@, k) == if k.0 == sim_id { None } else { lookup(s, k) } by {
            lemma_lookup_filter(s, named_not_sim(sim_id), k);
        }
    }
}

/// Clears only the bookkeeping owned by simulation `sim_id`; other
/// simulations running in the same process keep theirs, and the count of
/// missed owner lookups they all read is left as it is.
pub fn clear_sim<B>(st: &mut ModState<B>, sim_id: usize)
    ensures
        cleared_sim(*old(st), *final(st), sim_id),
{
    remove_sim_pairs(&mut st.records, sim_id);
    remove_sim_pairs(&mut st.champion_keys, sim_id);
    remove_sim_named(&mut st.counters, sim_id);
    remove_sim_named(&mut st.flags, sim_id);
    let keep_buff = |p: &PersistedBuff<B>| -> (b: bool)
        ensures
            b == (p.sim_id != sim_id),
        { p.sim_id != sim_id };
    vec_retain(&mut st.persisted_buffs, keep_buff, Ghost(buff_not_sim::<B>(sim_id)));
    crate::periodic::clear_periodics(&mut st.periodics, sim_id);
    remove_sim_pairs(&mut st.entity_owners, sim_id);
    let keep_unit = |u: &(usize, SpawnedUnit)| -> (b: bool)
        ensures
            b == (u.0 != sim_id),
        { u.0 != sim_id };
    vec_retain(&mut st.spawned_units, keep_unit, Ghost(unit_not_sim(sim_id)));
    let keep_cancel = |c: &(usize, usize, usize)| -> (b: bool)
        ensures
            b == (c.0 != sim_id),
        { c.0 != sim_id };
    vec_retain(&mut st.cancelled_effects, keep_cancel, Ghost(cancel_not_sim(sim_id)));
    let keep_scope = |s: &SpawnAggregationScope| -> (b: bool)
        ensures
            b == (s.sim_id != sim_id),
        { s.sim_id != sim_id };
    vec_retain(&mut st.aggregation_scopes, keep_scope, Ghost(scope_not_sim(sim_id)));
    table_remove(&mut st.buff_vfx_by_sim, &sim_id);
    remove_sim_named(&mut st.buff_vfx_starts, sim_id);
}

} // verus!
