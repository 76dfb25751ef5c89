//! Spawned units: tracking, attack gates, effect cancellation and the
//! per-simulation target aggregation scopes used while spawning.
use vstd::prelude::*;
use crate::seq_util::vec_retain;
use crate::state::{ModState, player_data_same, ownership_same, runtime_same, visuals_same};
use crate::table::{lookup, lemma_lookup_some_member, table_get, table_insert};
use crate::text::str_eq;

verus! {

broadcast use {vstd::seq_lib::group_seq_properties, vstd::seq::group_seq_axioms};

/// A unit spawned by a champion.
#[derive(Debug)]
pub struct SpawnedUnit {
    pub serial: u64,
    pub owner_id: usize,
    pub entity_id: usize,
    pub name: String,
    pub created_tick: u64,
    pub attack_enabled: bool,
    pub attack_gate_queued: bool,
}

impl SpawnedUnit {
    /// A field-by-field copy.
    pub fn duplicate(&self) -> (r: SpawnedUnit)
        ensures
            r == *self,
    {
        SpawnedUnit {
            serial: self.serial,
            owner_id: self.owner_id,
            entity_id: self.entity_id,
            name: self.name.clone(),
            created_tick: self.created_tick,
            attack_enabled: self.attack_enabled,
            attack_gate_queued: self.attack_gate_queued,
        }
    }
}

/// A target aggregation scope opened while spawning: how often each target
/// was hit, and the damage multiplier of each target of the current round
/// (`None` = the base multiplier 1, `Some(bits)` = the additional
/// multiplier, an `f32` bit pattern).
pub struct SpawnAggregationScope {
    pub sim_id: usize,
    pub allow_duplicates: bool,
    pub additional_multiplier: u32,
    pub hit_counts: Vec<(usize, usize)>,
    pub current_multipliers: Vec<(usize, Option<u32>)>,
}

/// `u` is a unit of simulation `sim_id` with entity `entity_id`, owned by
/// `owner_id` when one is given.
pub open spec fn unit_matches(u: (usize, SpawnedUnit), sim_id: usize, owner_id: Option<usize>, entity_id: usize) -> bool {
    u.0 == sim_id && u.1.entity_id == entity_id && match owner_id {
        Some(o) => u.1.owner_id == o,
        None => true,
    }
}

/// `i` is the first unit matching.
pub open spec fn is_first_unit(s: Seq<(usize, SpawnedUnit)>, i: int, sim_id: usize, owner_id: Option<usize>, entity_id: usize) -> bool {
    &&& 0 <= i < s.len()
    &&& unit_matches(s[i], sim_id, owner_id, entity_id)
    &&& forall|j: int| 0 <= j < i ==> !unit_matches(#[trigger] s[j], sim_id, owner_id, entity_id)
}

/// Position of the first unit matching, if any.
pub open spec fn first_unit(s: Seq<(usize, SpawnedUnit)>, sim_id: usize, owner_id: Option<usize>, entity_id: usize) -> Option<int> {
    if exists|i: int| is_first_unit(s, i, sim_id, owner_id, entity_id) {
        Some(choose|i: int| is_first_unit(s, i, sim_id, owner_id, entity_id))
    } else {
        None
    }
}

fn find_unit(s: &Vec<(usize, SpawnedUnit)>, sim_id: usize, owner_id: Option<usize>, entity_id: usize) -> (r: Option<usize>)
    ensures
        r matches Some(i) ==> first_unit(s@, sim_id, owner_id, entity_id) == Some(i as int) && i < s@.len(),
        r is None ==> first_unit(s@, sim_id, owner_id, entity_id) is None,
{
    let mut i: usize = 0;
    while i < s.len()
        invariant
            i <= s@.len(),
            forall|j: int| 0 <= j < i ==> !unit_matches(#[trigger] s@[j], sim_id, owner_id, entity_id),
        decreases s.len() - i,
    {
        let u = &s[i];
        let owner_ok = match owner_id {
            Some(o) => u.1.owner_id == o,
            None => true,
        };
        if u.0 == sim_id && u.1.entity_id == entity_id && owner_ok {
            proof {
                assert(is_first_unit(s@, i as int, sim_id, owner_id, entity_id));
                let c = choose|c: int| is_first_unit(s@, c, sim_id, owner_id, entity_id);
                if c < i {
                    assert(!unit_matches(s@[c], sim_id, owner_id, entity_id));
                }
                if i < c {
                    assert(!unit_matches(s@[i as int], sim_id, owner_id, entity_id));
                }
            }
            return Some(i);
        }
        i = i + 1;
    }
    None
}

/// Cancellations other than `(sim_id, owner_id, entity_id)`.
pub open spec fn other_cancel(sim_id: usize, owner_id: usize, entity_id: usize) -> spec_fn((usize, usize, usize)) -> bool {
    |c: (usize, usize, usize)| c != (sim_id, owner_id, entity_id)
}

/// The cancellation of `owner_id`'s unit `entity_id`.
pub open spec fn cancel_of(sim_id: usize, owner_id: usize, entity_id: usize) -> spec_fn((usize, usize, usize)) -> bool {
    |c: (usize, usize, usize)| c == (sim_id, owner_id, entity_id)
}

/// Units other than `owner_id`'s unit `entity_id`.
pub open spec fn other_unit(sim_id: usize, owner_id: usize, entity_id: usize) -> spec_fn((usize, SpawnedUnit)) -> bool {
    |u: (usize, SpawnedUnit)| !unit_matches(u, sim_id, Some(owner_id), entity_id)
}

/// The effect of `track_spawned_unit`: the unit is appended under the next
/// serial (the result) and earlier cancellations of its effects are lifted.
pub open spec fn track_post<B>(a: ModState<B>, b: ModState<B>, sim_id: usize, tick: usize, owner_id: usize, entity_id: usize, name: Seq<char>, attack_enabled: bool, r: u64) -> bool {
    &&& r == a.next_spawned_unit_serial
    &&& b.next_spawned_unit_serial == a.next_spawned_unit_serial.wrapping_add(1)
    &&& b.spawned_units@.len() == a.spawned_units@.len() + 1
    &&& b.spawned_units@.drop_last() == a.spawned_units@
    &&& ({
        let u = b.spawned_units@.last();
        &&& u.0 == sim_id
        &&& u.1.serial == r
        &&& u.1.owner_id == owner_id
        &&& u.1.entity_id == entity_id
        &&& u.1.name@ == name
        &&& u.1.created_tick == tick as u64
        &&& u.1.attack_enabled == attack_enabled
        &&& !u.1.attack_gate_queued
    })
    &&& b.cancelled_effects@ == a.cancelled_effects@.filter(other_cancel(sim_id, owner_id, entity_id))
    &&& b.entity_owners@ == a.entity_owners@
    &&& player_data_same(a, b)
    &&& runtime_same(a, b)
}

/// Starts tracking a spawned unit under the next serial (which is
/// returned), created at `tick`, and lifts any earlier cancellation of its
/// effects.
pub fn track_spawned_unit<B>(st: &mut ModState<B>, sim_id: usize, tick: usize, owner_id: usize, entity_id: usize, name: &str, attack_enabled: bool) -> (r: u64)
    ensures
        track_post(*old(st), *final(st), sim_id, tick, owner_id, entity_id, name@, attack_enabled, r),
{
    let serial = st.next_spawned_unit_serial;
    st.next_spawned_unit_serial = serial.wrapping_add(1);
    let unit = SpawnedUnit {
        serial,
        owner_id,
        entity_id,
        name: String::from_str(name),
        created_tick: tick as u64,
        attack_enabled,
        attack_gate_queued: false,
    };
    let ghost units_before = st.spawned_units@;
    st.spawned_units.push((sim_id, unit));
    assert(st.spawned_units@.drop_last() =~= units_before);
    let keep = |c: &(usize, usize, usize)| -> (b: bool)
        ensures
            b == (*c != (sim_id, owner_id, entity_id)),
        { !(c.0 == sim_id && c.1 == owner_id && c.2 == entity_id) };
    vec_retain(&mut st.cancelled_effects, keep, Ghost(other_cancel(sim_id, owner_id, entity_id)));
    serial
}

/// Host actions that keep a unit from attacking: block its attacks now,
/// and queue the blocking effect again with the given caster.
#[derive(Clone, Copy, Debug, PartialEq, Eq)]
pub struct GateActions {
    pub block_attack: bool,
    pub queue_with_caster: Option<usize>,
}

/// Enables or disables the attacks of a tracked spawned unit. Disabling
/// blocks its attacks now and, the first time, queues the blocking effect
/// that keeps them blocked (cast by the unit's owner).
pub fn set_spawn_attack_enabled<B>(st: &mut ModState<B>, sim_id: usize, entity_id: usize, enabled: bool) -> (r: GateActions)
    ensures
        match first_unit(old(st).spawned_units@, sim_id, None, entity_id) {
            Some(i) => {
                let u = old(st).spawned_units@[i];
                let queue = !enabled && !u.1.attack_gate_queued;
                &&& final(st).spawned_units@ == old(st).spawned_units@.update(i, (u.0, SpawnedUnit {
                    attack_enabled: enabled,
                    attack_gate_queued: if queue { true } else { u.1.attack_gate_queued },
                    ..u.1
                }))
                &&& r == GateActions { block_attack: !enabled, queue_with_caster: if queue { Some(u.1.owner_id) } else { None } }
            },
            None => final(st).spawned_units@ == old(st).spawned_units@ && r == GateActions { block_attack: !enabled, queue_with_caster: None },
        },
        final(st).entity_owners@ == old(st).entity_owners@,
        final(st).cancelled_effects@ == old(st).cancelled_effects@,
        final(st).next_spawned_unit_serial == old(st).next_spawned_unit_serial,
        player_data_same(*old(st), *final(st)),
        runtime_same(*old(st), *final(st)),
{
    match find_unit(&st.spawned_units, sim_id, None, entity_id) {
        Some(i) => {
            let ghost s0 = st.spawned_units@;
            let (sid, u) = st.spawned_units.remove(i);
            let queue = !enabled && !u.attack_gate_queued;
            let owner = u.owner_id;
            let updated = SpawnedUnit {
                attack_enabled: enabled,
                attack_gate_queued: if queue { true } else { u.attack_gate_queued },
                ..u
            };
            st.spawned_units.insert(i, (sid, updated));
            assert(st.spawned_units@ =~= s0.update(i as int, (sid, updated)));
            GateActions { block_attack: !enabled, queue_with_caster: if queue { Some(owner) } else { None } }
        },
        None => GateActions { block_attack: !enabled, queue_with_caster: None },
    }
}

/// Keeps `owner_id`'s unit `entity_id` from attacking: while its attacks
/// are disabled and it is alive (`entity_alive` is `None` when the entity
/// is gone), returns true (block its attacks and queue the blocking effect
/// again); otherwise the block is released. False for an untracked unit.
pub fn maintain_spawn_attack_gate<B>(st: &mut ModState<B>, sim_id: usize, owner_id: usize, entity_id: usize, entity_alive: Option<bool>) -> (r: bool)
    ensures
        match first_unit(old(st).spawned_units@, sim_id, Some(owner_id), entity_id) {
            Some(i) => {
                let u = old(st).spawned_units@[i];
                let release = u.1.attack_enabled || entity_alive != Some(true);
                &&& r == !release
                &&& final(st).spawned_units@ == if release {
                    old(st).spawned_units@.update(i, (u.0, SpawnedUnit { attack_gate_queued: false, ..u.1 }))
                } else {
                    old(st).spawned_units@
                }
            },
            None => !r && final(st).spawned_units@ == old(st).spawned_units@,
        },
        final(st).entity_owners@ == old(st).entity_owners@,
        final(st).cancelled_effects@ == old(st).cancelled_effects@,
        final(st).next_spawned_unit_serial == old(st).next_spawned_unit_serial,
        player_data_same(*old(st), *final(st)),
        runtime_same(*old(st), *final(st)),
{
    let Some(i) = find_unit(&st.spawned_units, sim_id, Some(owner_id), entity_id) else { return false; };
    let enabled = st.spawned_units[i].1.attack_enabled;
    let alive = match entity_alive {
        Some(a) => a,
        None => false,
    };
    if enabled || !alive {
        let ghost s0 = st.spawned_units@;
        let (sid, u) = st.spawned_units.remove(i);
        let updated = SpawnedUnit { attack_gate_queued: false, ..u };
        st.spawned_units.insert(i, (sid, updated));
        assert(st.spawned_units@ =~= s0.update(i as int, (sid, updated)));
        false
    } else {
        true
    }
}

/// Units kept by the liveness sweep: other simulations' units, and this
/// simulation's units whose entity is alive.
pub open spec fn unit_survives(sim_id: usize, living: Seq<usize>) -> spec_fn((usize, SpawnedUnit)) -> bool {
    |u: (usize, SpawnedUnit)| u.0 != sim_id || living.contains(u.1.entity_id)
}

/// `owner_id`'s units named `name` in this simulation.
pub open spec fn owned_named(sim_id: usize, owner_id: usize, name: Seq<char>) -> spec_fn((usize, SpawnedUnit)) -> bool {
    |u: (usize, SpawnedUnit)| u.0 == sim_id && u.1.owner_id == owner_id && u.1.name@ == name
}

fn contains_usize(v: &Vec<usize>, x: usize) -> (r: bool)
    ensures
        r == v@.contains(x),
{
    let mut i: usize = 0;
    while i < v.len()
        invariant
            i <= v.len(),
            forall|j: int| 0 <= j < i ==> v@[j] != x,
        decreases v.len() - i,
    {
        if v[i] == x {
            return true;
        }
        i = i + 1;
    }
    false
}

/// Drops this simulation's units whose entity is no longer alive (`living`
/// lists the living entity ids), then returns `owner_id`'s units named
/// `name`.
pub fn spawned_units<B>(st: &mut ModState<B>, sim_id: usize, living: &Vec<usize>, owner_id: usize, name: &str) -> (r: Vec<SpawnedUnit>)
    ensures
        final(st).spawned_units@ == old(st).spawned_units@.filter(unit_survives(sim_id, living@)),
        r@ == final(st).spawned_units@.filter(owned_named(sim_id, owner_id, name@)).map_values(|u: (usize, SpawnedUnit)| u.1),
        final(st).entity_owners@ == old(st).entity_owners@,
        final(st).cancelled_effects@ == old(st).cancelled_effects@,
        final(st).next_spawned_unit_serial == old(st).next_spawned_unit_serial,
        player_data_same(*old(st), *final(st)),
        runtime_same(*old(st), *final(st)),
{
    let keep = |u: &(usize, SpawnedUnit)| -> (b: bool)
        ensures
            b == (u.0 != sim_id || living@.contains(u.1.entity_id)),
        { u.0 != sim_id || contains_usize(living, u.1.entity_id) };
    vec_retain(&mut st.spawned_units, keep, Ghost(unit_survives(sim_id, living@)));
    let ghost pred = owned_named(sim_id, owner_id, name@);
    let mut out: Vec<SpawnedUnit> = Vec::new();
    let mut i: usize = 0;
    reveal(Seq::filter);
    assert(st.spawned_units@.take(0) =~= Seq::<(usize, SpawnedUnit)>::empty());
    while i < st.spawned_units.len()
        invariant
            i <= st.spawned_units@.len(),
            pred == owned_named(sim_id, owner_id, name@),
            out@ == st.spawned_units@.take(i as int).filter(pred).map_values(|u: (usize, SpawnedUnit)| u.1),
        decreases st.spawned_units.len() - i,
    {
        let ghost s = st.spawned_units@;
        assert(s.take(i as int + 1) =~= s.take(i as int).push(s[i as int]));
        proof {
            s.take(i as int).lemma_filter_push(s[i as int], pred);
        }
        let u = &st.spawned_units[i];
        if u.0 == sim_id && u.1.owner_id == owner_id && str_eq(u.1.name.as_str(), name) {
            let ghost before = out@;
            out.push(u.1.duplicate());
            assert(out@ =~= s.take(i as int + 1).filter(pred).map_values(|u: (usize, SpawnedUnit)| u.1));
        } else {
            assert(out@ =~= s.take(i as int + 1).filter(pred).map_values(|u: (usize, SpawnedUnit)| u.1));
        }
        i = i + 1;
    }
    assert(st.spawned_units@.take(i as int) =~= st.spawned_units@);
    out
}

/// The entity ids of `spawned_units`.
pub fn spawned_unit_ids<B>(st: &mut ModState<B>, sim_id: usize, living: &Vec<usize>, owner_id: usize, name: &str) -> (r: Vec<usize>)
    ensures
        final(st).spawned_units@ == old(st).spawned_units@.filter(unit_survives(sim_id, living@)),
        r@ == final(st).spawned_units@.filter(owned_named(sim_id, owner_id, name@)).map_values(|u: (usize, SpawnedUnit)| u.1.entity_id),
        final(st).entity_owners@ == old(st).entity_owners@,
        final(st).cancelled_effects@ == old(st).cancelled_effects@,
        final(st).next_spawned_unit_serial == old(st).next_spawned_unit_serial,
        player_data_same(*old(st), *final(st)),
        runtime_same(*old(st), *final(st)),
{
    let units = spawned_units(st, sim_id, living, owner_id, name);
    let mut ids: Vec<usize> = Vec::new();
    let mut i: usize = 0;
    while i < units.len()
        invariant
            i <= units@.len(),
            ids@ == units@.take(i as int).map_values(|u: SpawnedUnit| u.entity_id),
        decreases units.len() - i,
    {
        ids.push(units[i].entity_id);
        assert(units@.take(i as int + 1).map_values(|u: SpawnedUnit| u.entity_id) =~= units@.take(i as int).map_values(|u: SpawnedUnit| u.entity_id).push(units@[i as int].entity_id));
        i = i + 1;
    }
    assert(units@.take(i as int) =~= units@);
    assert(ids@ =~= final(st).spawned_units@.filter(owned_named(sim_id, owner_id, name@)).map_values(|u: (usize, SpawnedUnit)| u.1.entity_id));
    ids
}

/// Units other than the one with `serial` in this simulation.
pub open spec fn not_serial(sim_id: usize, serial: u64) -> spec_fn((usize, SpawnedUnit)) -> bool {
    |u: (usize, SpawnedUnit)| u.0 != sim_id || u.1.serial != serial
}

/// Stops tracking the unit with `serial` in this simulation.
pub fn forget_spawned_unit<B>(st: &mut ModState<B>, sim_id: usize, serial: u64)
    ensures
        final(st).spawned_units@ == old(st).spawned_units@.filter(not_serial(sim_id, serial)),
        final(st).entity_owners@ == old(st).entity_owners@,
        final(st).cancelled_effects@ == old(st).cancelled_effects@,
        final(st).next_spawned_unit_serial == old(st).next_spawned_unit_serial,
        player_data_same(*old(st), *final(st)),
        runtime_same(*old(st), *final(st)),
{
    let keep = |u: &(usize, SpawnedUnit)| -> (b: bool)
        ensures
            b == (u.0 != sim_id || u.1.serial != serial),
        { u.0 != sim_id || u.1.serial != serial };
    vec_retain(&mut st.spawned_units, keep, Ghost(not_serial(sim_id, serial)));
}

fn is_cancelled(c: &Vec<(usize, usize, usize)>, key: (usize, usize, usize)) -> (r: bool)
    ensures
        r == c@.contains(key),
{
    let mut i: usize = 0;
    while i < c.len()
        invariant
            i <= c@.len(),
            forall|j: int| 0 <= j < i ==> c@[j] != key,
        decreases c.len() - i,
    {
        let e = c[i];
        if e.0 == key.0 && e.1 == key.1 && e.2 == key.2 {
            assert(c@[i as int] == key);
            return true;
        }
        i = i + 1;
    }
    false
}

/// Whether the effects of `owner_id`'s unit `entity_id` still apply: not
/// cancelled, tracked, and alive (a unit whose entity is gone counts only
/// on the tick it was created).
pub open spec fn effect_active<B>(st: ModState<B>, sim_id: usize, tick: usize, owner_id: usize, entity_id: usize, entity_alive: Option<bool>) -> bool {
    if st.cancelled_effects@.contains((sim_id, owner_id, entity_id)) {
        false
    } else {
        match first_unit(st.spawned_units@, sim_id, Some(owner_id), entity_id) {
            Some(i) => match entity_alive {
                Some(a) => a,
                None => st.spawned_units@[i].1.created_tick == tick as u64,
            },
            None => false,
        }
    }
}

/// Whether the effects of `owner_id`'s unit `entity_id` still apply: not
/// cancelled, tracked, and alive (`entity_alive` is `None` when the entity
/// is gone; such a unit counts as active only on the tick it was created).
pub fn spawned_unit_effect_is_active<B>(st: &ModState<B>, sim_id: usize, tick: usize, owner_id: usize, entity_id: usize, entity_alive: Option<bool>) -> (r: bool)
    ensures
        r == effect_active(*st, sim_id, tick, owner_id, entity_id, entity_alive),
{
    if is_cancelled(&st.cancelled_effects, (sim_id, owner_id, entity_id)) {
        return false;
    }
    let Some(i) = find_unit(&st.spawned_units, sim_id, Some(owner_id), entity_id) else { return false; };
    match entity_alive {
        Some(a) => a,
        None => st.spawned_units[i].1.created_tick == tick as u64,
    }
}

/// The effect of cancelling `owner_id`'s unit `entity_id`: the
/// cancellation is recorded once, and the unit is untracked when it is
/// destroyed (the result).
pub open spec fn cancel_post<B>(a: ModState<B>, b: ModState<B>, sim_id: usize, owner_id: usize, entity_id: usize, destroy_spawn_on_trigger: bool, r: bool) -> bool {
    &&& r == destroy_spawn_on_trigger
    &&& b.cancelled_effects@ == if a.cancelled_effects@.contains((sim_id, owner_id, entity_id)) {
        a.cancelled_effects@
    } else {
        a.cancelled_effects@.push((sim_id, owner_id, entity_id))
    }
    &&& b.spawned_units@ == if destroy_spawn_on_trigger {
        a.spawned_units@.filter(other_unit(sim_id, owner_id, entity_id))
    } else {
        a.spawned_units@
    }
    &&& b.entity_owners@ == a.entity_owners@
    &&& b.next_spawned_unit_serial == a.next_spawned_unit_serial
    &&& player_data_same(a, b)
    &&& runtime_same(a, b)
}

/// Cancels the effects of `owner_id`'s unit `entity_id` (recorded once).
/// With `destroy_spawn_on_trigger` the unit is also untracked and true is
/// returned: the host must then set its hp to zero.
pub fn cancel_spawned_unit_effect<B>(st: &mut ModState<B>, sim_id: usize, owner_id: usize, entity_id: usize, destroy_spawn_on_trigger: bool) -> (r: bool)
    ensures
        cancel_post(*old(st), *final(st), sim_id, owner_id, entity_id, destroy_spawn_on_trigger, r),
{
    if !is_cancelled(&st.cancelled_effects, (sim_id, owner_id, entity_id)) {
        st.cancelled_effects.push((sim_id, owner_id, entity_id));
    }
    if destroy_spawn_on_trigger {
        let keep = |u: &(usize, SpawnedUnit)| -> (b: bool)
            ensures
                b == !unit_matches(*u, sim_id, Some(owner_id), entity_id),
            { !(u.0 == sim_id && u.1.owner_id == owner_id && u.1.entity_id == entity_id) };
        vec_retain(&mut st.spawned_units, keep, Ghost(other_unit(sim_id, owner_id, entity_id)));
    }
    destroy_spawn_on_trigger
}

/// Consuming a spawned unit's target is cancelling its effect.
pub fn consume_spawned_unit_target<B>(st: &mut ModState<B>, sim_id: usize, owner_id: usize, entity_id: usize, destroy_spawn_on_trigger: bool) -> (r: bool)
    ensures
        cancel_post(*old(st), *final(st), sim_id, owner_id, entity_id, destroy_spawn_on_trigger, r),
{
    cancel_spawned_unit_effect(st, sim_id, owner_id, entity_id, destroy_spawn_on_trigger)
}


// ------------------------------------------------------------------
// Target aggregation while spawning
// ------------------------------------------------------------------

/// `i` is the innermost (last opened) scope of simulation `sim_id`.
pub open spec fn is_last_scope(s: Seq<SpawnAggregationScope>, i: int, sim_id: usize) -> bool {
    &&& 0 <= i < s.len()
    &&& s[i].sim_id == sim_id
    &&& forall|j: int| i < j < s.len() ==> (#[trigger] s[j]).sim_id != sim_id
}

/// Position of the innermost scope of the simulation, if any.
pub open spec fn last_scope(s: Seq<SpawnAggregationScope>, sim_id: usize) -> Option<int> {
    if exists|i: int| is_last_scope(s, i, sim_id) {
        Some(choose|i: int| is_last_scope(s, i, sim_id))
    } else {
        None
    }
}

proof fn lemma_last_scope_unique(s: Seq<SpawnAggregationScope>, i: int, k: int, sim_id: usize)
    requires
        is_last_scope(s, i, sim_id),
        is_last_scope(s, k, sim_id),
    ensures
        i == k,
{
    if i < k {
        assert(s[k].sim_id != sim_id);
    }
    if k < i {
        assert(s[i].sim_id != sim_id);
    }
}

fn find_last_scope(s: &Vec<SpawnAggregationScope>, sim_id: usize) -> (r: Option<usize>)
    ensures
        r matches Some(i) ==> last_scope(s@, sim_id) == Some(i as int) && i < s@.len(),
        r is None ==> last_scope(s@, sim_id) is None,
{
    let mut i = s.len();
    while i > 0
        invariant
            i <= s@.len(),
            forall|j: int| i <= j < s@.len() ==> (#[trigger] s@[j]).sim_id != sim_id,
        decreases i,
    {
        i = i - 1;
        if s[i].sim_id == sim_id {
            proof {
                assert(is_last_scope(s@, i as int, sim_id));
                let c = choose|c: int| is_last_scope(s@, c, sim_id);
                lemma_last_scope_unique(s@, i as int, c, sim_id);
            }
            return Some(i);
        }
    }
    None
}

/// Opens a new (innermost) aggregation scope for the simulation.
/// `additional_multiplier` is the `f32` bit pattern of the multiplier for
/// repeated hits (already clamped at zero).
pub fn begin_spawn_aggregation<B>(st: &mut ModState<B>, sim_id: usize, allow_duplicates: bool, additional_multiplier: u32)
    ensures
        final(st).aggregation_scopes@.len() == old(st).aggregation_scopes@.len() + 1,
        final(st).aggregation_scopes@.drop_last() == old(st).aggregation_scopes@,
        ({
            let sc = final(st).aggregation_scopes@.last();
            &&& sc.sim_id == sim_id
            &&& sc.allow_duplicates == allow_duplicates
            &&& sc.additional_multiplier == additional_multiplier
            &&& sc.hit_counts@.len() == 0
            &&& sc.current_multipliers@.len() == 0
        }),
        player_data_same(*old(st), *final(st)),
        ownership_same(*old(st), *final(st)),
        final(st).missed_owner_lookups == old(st).missed_owner_lookups,
        final(st).periodics@ == old(st).periodics@,
        visuals_same(*old(st), *final(st)),
{
    st.aggregation_scopes.push(SpawnAggregationScope {
        sim_id,
        allow_duplicates,
        additional_multiplier,
        hit_counts: Vec::new(),
        current_multipliers: Vec::new(),
    });
}

/// Number of occurrences of `t` in `s`.
pub open spec fn occurrences(s: Seq<usize>, t: usize) -> nat
    decreases s.len(),
{
    if s.len() == 0 {
        0
    } else {
        occurrences(s.drop_last(), t) + if s.last() == t { 1nat } else { 0nat }
    }
}

proof fn lemma_occurrences_bound(s: Seq<usize>, t: usize)
    ensures
        occurrences(s, t) <= s.len(),
        occurrences(s, t) > 0 <==> s.contains(t),
    decreases s.len(),
{
    if s.len() > 0 {
        lemma_occurrences_bound(s.drop_last(), t);
        if s.drop_last().contains(t) {
            let k = choose|k: int| 0 <= k < s.drop_last().len() && s.drop_last()[k] == t;
            assert(s[k] == t);
        }
        if s.contains(t) && s.last() != t {
            let k = choose|k: int| 0 <= k < s.len() && s[k] == t;
            assert(s.drop_last()[k] == t);
        }
    }
}

/// Hits recorded for `t` before this round.
pub open spec fn hits_before(h: Seq<(usize, usize)>, t: usize) -> nat {
    match lookup(h, t) {
        Some(c) => c as nat,
        None => 0,
    }
}

/// Every recorded hit count leaves room for `extra` more hits.
pub open spec fn hits_fit(sc: SpawnAggregationScope, extra: nat) -> bool {
    forall|t: usize| #[trigger] lookup(sc.hit_counts@, t) matches Some(c) ==> c + extra <= usize::MAX
}

/// The targets kept by one aggregation round: first hits of a target in
/// the scope, and every hit when duplicates are allowed.
pub open spec fn aggregate_out(h: Seq<(usize, usize)>, targets: Seq<usize>, allow_duplicates: bool) -> Seq<usize>
    decreases targets.len(),
{
    if targets.len() == 0 {
        Seq::empty()
    } else {
        let pre = aggregate_out(h, targets.drop_last(), allow_duplicates);
        let t = targets.last();
        if hits_before(h, t) + occurrences(targets.drop_last(), t) == 0 || allow_duplicates {
            pre.push(t)
        } else {
            pre
        }
    }
}

/// The innermost scope after a round over `targets`, given the one before.
pub open spec fn aggregated_scope(a: SpawnAggregationScope, b: SpawnAggregationScope, targets: Seq<usize>) -> bool {
    &&& b.sim_id == a.sim_id
    &&& b.allow_duplicates == a.allow_duplicates
    &&& b.additional_multiplier == a.additional_multiplier
    &&& forall|t: usize| #[trigger] lookup(b.hit_counts@, t) == if occurrences(targets, t) > 0 {
        Some((hits_before(a.hit_counts@, t) + occurrences(targets, t)) as usize)
    } else {
        lookup(a.hit_counts@, t)
    }
    &&& forall|t: usize| #[trigger] lookup(b.current_multipliers@, t) == if occurrences(targets, t) > 0 {
        Some(if hits_before(a.hit_counts@, t) + occurrences(targets, t) == 1 { None } else { Some(a.additional_multiplier) })
    } else {
        None
    }
}

/// Filters spawn targets through the simulation's innermost aggregation
/// scope: every target's hit count goes up by one, and a target is kept on
/// its first hit in the scope (or always, when duplicates are allowed). The
/// round's multipliers are recorded: the base one for a first hit, the
/// additional one otherwise. Without a scope the targets are returned as
/// they are.
pub fn aggregate_spawn_targets<B>(st: &mut ModState<B>, sim_id: usize, targets: Vec<usize>) -> (r: Vec<usize>)
    requires
        last_scope(old(st).aggregation_scopes@, sim_id) matches Some(i) ==> hits_fit(old(st).aggregation_scopes@[i], targets@.len()),
    ensures
        match last_scope(old(st).aggregation_scopes@, sim_id) {
            Some(i) => {
                let a = old(st).aggregation_scopes@[i];
                &&& r@ == aggregate_out(a.hit_counts@, targets@, a.allow_duplicates)
                &&& final(st).aggregation_scopes@.len() == old(st).aggregation_scopes@.len()
                &&& forall|j: int| 0 <= j < old(st).aggregation_scopes@.len() && j != i ==> #[trigger] final(st).aggregation_scopes@[j] == old(st).aggregation_scopes@[j]
                &&& aggregated_scope(a, final(st).aggregation_scopes@[i], targets@)
            },
            None => r@ == targets@ && final(st).aggregation_scopes@ == old(st).aggregation_scopes@,
        },
        player_data_same(*old(st), *final(st)),
        ownership_same(*old(st), *final(st)),
        final(st).missed_owner_lookups == old(st).missed_owner_lookups,
        final(st).periodics@ == old(st).periodics@,
        visuals_same(*old(st), *final(st)),
{
    let Some(i) = find_last_scope(&st.aggregation_scopes, sim_id) else { return targets; };
    let ghost s0 = st.aggregation_scopes@;
    let ghost a = s0[i as int];
    assert(s0 == old(st).aggregation_scopes@);
    assert(last_scope(s0, sim_id) == Some(i as int));
    assert(hits_fit(a, targets@.len()));
    let mut sc = st.aggregation_scopes.remove(i);
    sc.current_multipliers = Vec::new();
    let mut out: Vec<usize> = Vec::new();
    let mut k: usize = 0;
    while k < targets.len()
        invariant
            k <= targets@.len(),
            sc.sim_id == a.sim_id,
            sc.allow_duplicates == a.allow_duplicates,
            sc.additional_multiplier == a.additional_multiplier,
            hits_fit(a, targets@.len()),
            out@ == aggregate_out(a.hit_counts@, targets@.take(k as int), a.allow_duplicates),
            forall|t: usize| #[trigger] lookup(sc.hit_counts@, t) == if occurrences(targets@.take(k as int), t) > 0 {
                Some((hits_before(a.hit_counts@, t) + occurrences(targets@.take(k as int), t)) as usize)
            } else {
                lookup(a.hit_counts@, t)
            },
            forall|t: usize| #[trigger] lookup(sc.current_multipliers@, t) == if occurrences(targets@.take(k as int), t) > 0 {
                Some(if hits_before(a.hit_counts@, t) + occurrences(targets@.take(k as int), t) == 1 { None } else { Some(a.additional_multiplier) })
            } else {
                None
            },
        decreases targets.len() - k,
    {
        let t = targets[k];
        let ghost pre = targets@.take(k as int);
        let ghost next = targets@.take(k as int + 1);
        assert(next.drop_last() =~= pre);
        assert(next.last() == t);
        proof {
            lemma_occurrences_bound(pre, t);
        }
        let before = match table_get(&sc.hit_counts, &t) {
            Some(c) => c,
            None => 0,
        };
        assert(before + 1 <= usize::MAX) by {
            if occurrences(pre, t) == 0 {
                if lookup(a.hit_counts@, t) is Some {
                    assert(before + targets@.len() <= usize::MAX);
                }
            } else {
                assert(hits_before(a.hit_counts@, t) + k + 1 <= usize::MAX) by {
                    if lookup(a.hit_counts@, t) is Some {
                        let c = lookup(a.hit_counts@, t)->0;
                        assert(c + targets@.len() <= usize::MAX);
                    }
                }
            }
        }
        let count = before + 1;
        table_insert(&mut sc.hit_counts, t, count);
        let first = count == 1;
        table_insert(&mut sc.current_multipliers, t, if first { None } else { Some(sc.additional_multiplier) });
        if first || sc.allow_duplicates {
            out.push(t);
        }
        k = k + 1;
    }
    assert(targets@.take(k as int) =~= targets@);
    st.aggregation_scopes.insert(i, sc);
    out
}

/// The damage multiplier of a target in the simulation's innermost scope:
/// `Some(bits)` when it was a repeated hit of the current round, `None`
/// for the base multiplier (also when there is no scope or no record).
pub fn spawn_effect_multiplier<B>(st: &ModState<B>, sim_id: usize, target_id: usize) -> (r: Option<u32>)
    ensures
        r == match last_scope(st.aggregation_scopes@, sim_id) {
            Some(i) => match lookup(st.aggregation_scopes@[i].current_multipliers@, target_id) {
                Some(m) => m,
                None => None,
            },
            None => None,
        },
{
    let Some(i) = find_last_scope(&st.aggregation_scopes, sim_id) else { return None; };
    match table_get(&st.aggregation_scopes[i].current_multipliers, &target_id) {
        Some(m) => m,
        None => None,
    }
}

/// Closes the simulation's innermost aggregation scope, if any.
pub fn end_spawn_aggregation<B>(st: &mut ModState<B>, sim_id: usize)
    ensures
        final(st).aggregation_scopes@ == match last_scope(old(st).aggregation_scopes@, sim_id) {
            Some(i) => old(st).aggregation_scopes@.remove(i),
            None => old(st).aggregation_scopes@,
        },
        player_data_same(*old(st), *final(st)),
        ownership_same(*old(st), *final(st)),
        final(st).missed_owner_lookups == old(st).missed_owner_lookups,
        final(st).periodics@ == old(st).periodics@,
        visuals_same(*old(st), *final(st)),
{
    if let Some(i) = find_last_scope(&st.aggregation_scopes, sim_id) {
        st.aggregation_scopes.remove(i);
    }
}


/// Every recorded hit count of `h` leaves room for `extra` more hits.
pub open spec fn all_counts_fit(h: Seq<(usize, usize)>, extra: nat) -> bool {
    forall|i: int| 0 <= i < h.len() ==> (#[trigger] h[i]).1 + extra <= usize::MAX
}

/// Whether the simulation's innermost aggregation scope (if any) can count
/// `extra` more hits of each target without overflowing; when it can,
/// `aggregate_spawn_targets` may be called with that many targets.
pub fn hits_fit_for<B>(st: &ModState<B>, sim_id: usize, extra: usize) -> (r: bool)
    ensures
        r == match last_scope(st.aggregation_scopes@, sim_id) {
            Some(i) => all_counts_fit(st.aggregation_scopes@[i].hit_counts@, extra as nat),
            None => true,
        },
        r ==> (last_scope(st.aggregation_scopes@, sim_id) matches Some(i) ==> hits_fit(st.aggregation_scopes@[i], extra as nat)),
{
    let Some(i) = find_last_scope(&st.aggregation_scopes, sim_id) else { return true; };
    let h = &st.aggregation_scopes[i].hit_counts;
    let mut k: usize = 0;
    while k < h.len()
        invariant
            k <= h@.len(),
            i < st.aggregation_scopes@.len(),
            last_scope(st.aggregation_scopes@, sim_id) == Some(i as int),
            h@ == st.aggregation_scopes@[i as int].hit_counts@,
            forall|j: int| 0 <= j < k ==> (#[trigger] h@[j]).1 + extra <= usize::MAX,
        decreases h.len() - k,
    {
        if h[k].1 > usize::MAX - extra {
            assert(h@[k as int].1 + extra > usize::MAX);
            return false;
        }
        k = k + 1;
    }
    proof {
        let sc = st.aggregation_scopes@[i as int];
        assert forall|t: usize| #[trigger] lookup(sc.hit_counts@, t) is Some implies lookup(sc.hit_counts@, t)->0 + extra <= usize::MAX by {
            lemma_lookup_some_member(sc.hit_counts@, t);
        }
        assert(hits_fit(sc, extra as nat));
    }
    true
}

} // verus!
