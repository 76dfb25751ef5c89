//! What the selections of the library pick: the nearest buff carriers,
//! isolated targets, the combo tier, due periodic channels and an owner's
//! spawned units, each stated over the inputs and results of the operation.
use vstd::prelude::*;
use crate::world::EntityInfo;
use crate::targeting::{buff_candidates, find_entity, on_side, named_count, pairs_sorted, is_nearby_ally, sat_mul_u64, FindBuffTeam};
use crate::geometry::spec_distance_sq;
use crate::abilities::{combo_tier, spec_flurry_damage, trunc_div};
use crate::periodic::{PeriodicInstance, survives_pred, due_pred};
use crate::spawns::{SpawnedUnit, unit_survives, owned_named};

verus! {

broadcast use {vstd::seq_lib::group_seq_properties, vstd::seq::group_seq_axioms};

// ------------------------------------------------------------------
// Nearest entities carrying a buff
// ------------------------------------------------------------------

/// Entity `j` of `es` has id `id`, is alive and targetable, stands on the
/// searched side of a caster of team `caster_team`, and the entity with
/// that id in `all` carries `buff_name`.
pub open spec fn eligible_holder_at(
    es: Seq<EntityInfo>,
    all: Seq<EntityInfo>,
    j: int,
    id: usize,
    caster_team: usize,
    buff_name: Seq<char>,
    team: FindBuffTeam,
) -> bool {
    &&& 0 <= j < es.len()
    &&& es[j].id == id
    &&& es[j].alive
    &&& es[j].targetable
    &&& on_side(es[j], caster_team, team)
    &&& named_count(find_entity(all, id), buff_name) >= 1
}

/// Some entity of `es` is an eligible holder with id `id`.
pub open spec fn has_eligible_holder(
    es: Seq<EntityInfo>,
    all: Seq<EntityInfo>,
    id: usize,
    caster_team: usize,
    buff_name: Seq<char>,
    team: FindBuffTeam,
) -> bool {
    exists|j: int| eligible_holder_at(es, all, j, id, caster_team, buff_name, team)
}

proof fn lemma_candidates_are_eligible(
    es: Seq<EntityInfo>,
    all: Seq<EntityInfo>,
    caster: EntityInfo,
    buff_name: Seq<char>,
    team: FindBuffTeam,
)
    ensures
        forall|k: int| 0 <= k < buff_candidates(es, all, caster, buff_name, team).len() ==>
            has_eligible_holder(es, all, #[trigger] buff_candidates(es, all, caster, buff_name, team)[k].1, caster.team, buff_name, team),
    decreases es.len(),
{
    if es.len() > 0 {
        let pre_es = es.drop_last();
        lemma_candidates_are_eligible(pre_es, all, caster, buff_name, team);
        let cands = buff_candidates(es, all, caster, buff_name, team);
        let pre = buff_candidates(pre_es, all, caster, buff_name, team);
        assert forall|k: int| 0 <= k < cands.len() implies
            has_eligible_holder(es, all, #[trigger] cands[k].1, caster.team, buff_name, team) by {
            if k < pre.len() {
                assert(cands[k] == pre[k]);
                assert(has_eligible_holder(pre_es, all, pre[k].1, caster.team, buff_name, team));
                let j = choose|j: int| eligible_holder_at(pre_es, all, j, pre[k].1, caster.team, buff_name, team);
                assert(pre_es[j] == es[j]);
                assert(eligible_holder_at(es, all, j, cands[k].1, caster.team, buff_name, team));
            } else {
                assert(eligible_holder_at(es, all, es.len() - 1, cands[k].1, caster.team, buff_name, team));
            }
        }
    }
}

/// Every id returned by `find_nearest_with_buff` names an entity that is
/// alive, targetable, on the searched side of the caster and carries the
/// buff: dead or untargetable entities are never picked, however near.
pub proof fn law_nearest_with_buff_picks_only_eligible(
    entities: Seq<EntityInfo>,
    caster_id: usize,
    buff_name: Seq<char>,
    team: FindBuffTeam,
    max_targets: usize,
    r: Seq<usize>,
)
    requires
        max_targets == 0 ==> r.len() == 0,
        max_targets > 0 ==> match find_entity(entities, caster_id) {
            None => r.len() == 0,
            Some(caster) => exists|sorted: Seq<(u64, usize)>| #![trigger pairs_sorted(sorted)] {
                let cands = buff_candidates(entities, entities, caster, buff_name, team);
                &&& sorted.to_multiset() == cands.to_multiset()
                &&& pairs_sorted(sorted)
                &&& r == sorted.take(if max_targets < sorted.len() { max_targets as int } else { sorted.len() as int }).map_values(|p: (u64, usize)| p.1)
            },
        },
    ensures
        forall|i: int| #![trigger r[i]] 0 <= i < r.len() ==> {
            &&& find_entity(entities, caster_id) is Some
            &&& exists|j: int| 0 <= j < entities.len() && #[trigger] entities[j].id == r[i] && entities[j].alive && entities[j].targetable
                && on_side(entities[j], find_entity(entities, caster_id)->0.team, team)
                && named_count(find_entity(entities, r[i]), buff_name) >= 1
        },
{
    if r.len() > 0 {
        let caster = find_entity(entities, caster_id)->0;
        let cands = buff_candidates(entities, entities, caster, buff_name, team);
        let sorted = choose|sorted: Seq<(u64, usize)>| {
            &&& sorted.to_multiset() == cands.to_multiset()
            &&& pairs_sorted(sorted)
            &&& r == sorted.take(if max_targets < sorted.len() { max_targets as int } else { sorted.len() as int }).map_values(|p: (u64, usize)| p.1)
        };
        lemma_candidates_are_eligible(entities, entities, caster, buff_name, team);
        sorted.to_multiset_ensures();
        cands.to_multiset_ensures();
        assert forall|i: int| #![trigger r[i]] 0 <= i < r.len() implies exists|j: int| 0 <= j < entities.len() && #[trigger] entities[j].id == r[i]
            && entities[j].alive && entities[j].targetable && on_side(entities[j], caster.team, team)
            && named_count(find_entity(entities, r[i]), buff_name) >= 1 by {
            assert(r[i] == sorted[i].1);
            assert(sorted.contains(sorted[i]));
            assert(sorted.to_multiset().count(sorted[i]) > 0);
            assert(cands.contains(sorted[i]));
            let k = choose|k: int| 0 <= k < cands.len() && cands[k] == sorted[i];
            assert(cands[k].1 == r[i]);
            assert(has_eligible_holder(entities, entities, cands[k].1, caster.team, buff_name, team));
            let j = choose|j: int| eligible_holder_at(entities, entities, j, cands[k].1, caster.team, buff_name, team);
            assert(entities[j].id == r[i]);
        }
    }
}

// ------------------------------------------------------------------
// Isolation
// ------------------------------------------------------------------

/// Adding an entity that is not alive never changes whether a target is
/// isolated: only living allies count as nearby.
pub proof fn law_dead_entities_do_not_affect_isolation(
    entities: Seq<EntityInfo>,
    dead: EntityInfo,
    target: Option<EntityInfo>,
    target_id: usize,
    range: u64,
    without: bool,
    with: bool,
)
    requires
        !dead.alive,
        without == match target {
            Some(t) => t.alive && forall|i: int| 0 <= i < entities.len() ==> !is_nearby_ally(#[trigger] entities[i], t, target_id, range),
            None => false,
        },
        with == match target {
            Some(t) => t.alive && forall|i: int| 0 <= i < entities.push(dead).len() ==> !is_nearby_ally(#[trigger] entities.push(dead)[i], t, target_id, range),
            None => false,
        },
    ensures
        with == without,
{
    if let Some(t) = target {
        let more = entities.push(dead);
        assert forall|i: int| 0 <= i < more.len() && (forall|k: int| 0 <= k < entities.len() ==> !is_nearby_ally(#[trigger] entities[k], t, target_id, range))
            implies !is_nearby_ally(#[trigger] more[i], t, target_id, range) by {
            if i < entities.len() {
                assert(more[i] == entities[i]);
            }
        }
        assert forall|i: int| 0 <= i < entities.len() && (forall|k: int| 0 <= k < more.len() ==> !is_nearby_ally(#[trigger] more[k], t, target_id, range))
            implies !is_nearby_ally(#[trigger] entities[i], t, target_id, range) by {
            assert(more[i] == entities[i]);
        }
    }
}

/// A living target is not isolated only because of a living entity of its
/// team, other than itself, within `range`.
pub proof fn law_not_isolated_means_living_ally_near(
    entities: Seq<EntityInfo>,
    t: EntityInfo,
    target_id: usize,
    range: u64,
    r: bool,
)
    requires
        t.alive,
        r == forall|i: int| 0 <= i < entities.len() ==> !is_nearby_ally(#[trigger] entities[i], t, target_id, range),
        !r,
    ensures
        exists|j: int| 0 <= j < entities.len() && #[trigger] entities[j].alive && entities[j].team == t.team
            && entities[j].id != target_id && spec_distance_sq(entities[j].pos, t.pos) <= sat_mul_u64(range, range),
{
    let j = choose|j: int| 0 <= j < entities.len() && is_nearby_ally(entities[j], t, target_id, range);
    assert(entities[j].alive);
}


// ------------------------------------------------------------------
// Saitama's combo tier
// ------------------------------------------------------------------

/// The combo tier is the smaller of the combo and 20: never above either,
/// and equal to one of them.
pub proof fn law_combo_tier_is_min_with_twenty(combo: i64)
    ensures
        combo_tier(combo) <= combo,
        combo_tier(combo) <= 20,
        combo_tier(combo) == combo || combo_tier(combo) == 20,
{
}

/// A flurry below the cap scales by 15 percentage points per combo point:
/// each hit deals `attack * (base_ratio + 15 * combo) / 100 / hits`
/// (toward zero, at least 1); past 20 more combo adds nothing.
pub proof fn law_flurry_scales_with_combo_up_to_twenty(attack: usize, combo: i64, hits: u32, base_ratio: i64)
    ensures
        combo <= 20 ==> spec_flurry_damage(attack, combo, hits, base_ratio) == ({
            let per = trunc_div(trunc_div((attack as i64) as int * (base_ratio + 15 * combo), 100), hits as int);
            if per < 1 { 1usize } else { per as usize }
        }),
        combo >= 20 ==> spec_flurry_damage(attack, combo, hits, base_ratio) == spec_flurry_damage(attack, 20, hits, base_ratio),
{
    law_combo_tier_is_min_with_twenty(combo);
    law_combo_tier_is_min_with_twenty(20);
}

// ------------------------------------------------------------------
// Due periodic channels
// ------------------------------------------------------------------

/// What `due_periodics` reports: every channel it returns belongs to the
/// simulation and source, is still running at `tick` with a living target,
/// and its next tick is at or before `tick`; and every such channel of the
/// store is returned, however long ago its next tick passed.
pub proof fn law_due_periodics_reports_all_overdue(
    before: Seq<PeriodicInstance>,
    after: Seq<PeriodicInstance>,
    r: Seq<PeriodicInstance>,
    sim_id: usize,
    living: Seq<usize>,
    source_id: usize,
    tick: u64,
)
    requires
        after == before.filter(survives_pred(sim_id, tick, living)),
        r == after.filter(due_pred(sim_id, source_id, tick)),
    ensures
        forall|i: int| 0 <= i < r.len() ==> {
            &&& (#[trigger] r[i]).sim_id == sim_id
            &&& r[i].source_id == source_id
            &&& r[i].next_tick <= tick
            &&& r[i].end_tick > tick
            &&& living.contains(r[i].target_id)
            &&& before.contains(r[i])
        },
        forall|i: int| 0 <= i < before.len() && (#[trigger] before[i]).sim_id == sim_id && before[i].source_id == source_id
            && before[i].next_tick <= tick && before[i].end_tick > tick && living.contains(before[i].target_id)
            ==> r.contains(before[i]),
{
    before.filter_lemma(survives_pred(sim_id, tick, living));
    after.filter_lemma(due_pred(sim_id, source_id, tick));
    assert forall|i: int| 0 <= i < r.len() implies {
        &&& (#[trigger] r[i]).sim_id == sim_id
        &&& r[i].source_id == source_id
        &&& r[i].next_tick <= tick
        &&& r[i].end_tick > tick
        &&& living.contains(r[i].target_id)
        &&& before.contains(r[i])
    } by {
        assert(due_pred(sim_id, source_id, tick)(r[i]));
        assert(r.contains(r[i]));
        after.lemma_filter_contains_rev(due_pred(sim_id, source_id, tick), r[i]);
        before.lemma_filter_contains_rev(survives_pred(sim_id, tick, living), r[i]);
        let k = choose|k: int| 0 <= k < after.len() && after[k] == r[i];
        assert(survives_pred(sim_id, tick, living)(after[k]));
    }
    assert forall|i: int| 0 <= i < before.len() && (#[trigger] before[i]).sim_id == sim_id && before[i].source_id == source_id
        && before[i].next_tick <= tick && before[i].end_tick > tick && living.contains(before[i].target_id)
        implies r.contains(before[i]) by {
        assert(after.contains(before[i]));
        let k = choose|k: int| 0 <= k < after.len() && after[k] == before[i];
        assert(due_pred(sim_id, source_id, tick)(after[k]));
    }
}

// ------------------------------------------------------------------
// An owner's spawned units
// ------------------------------------------------------------------

/// What `spawned_units` and `spawned_unit_ids` list: only units tracked in
/// the simulation for `owner_id` under `name` whose entity is alive, and
/// every such unit. A unit tracked for another owner is never listed.
pub proof fn law_spawned_units_are_the_owners(
    before: Seq<(usize, SpawnedUnit)>,
    after: Seq<(usize, SpawnedUnit)>,
    sim_id: usize,
    living: Seq<usize>,
    owner_id: usize,
    name: Seq<char>,
    units: Seq<SpawnedUnit>,
    ids: Seq<usize>,
)
    requires
        after == before.filter(unit_survives(sim_id, living)),
        units == after.filter(owned_named(sim_id, owner_id, name)).map_values(|u: (usize, SpawnedUnit)| u.1),
        ids == after.filter(owned_named(sim_id, owner_id, name)).map_values(|u: (usize, SpawnedUnit)| u.1.entity_id),
    ensures
        ids.len() == units.len(),
        forall|i: int| 0 <= i < units.len() ==> {
            &&& (#[trigger] units[i]).owner_id == owner_id
            &&& units[i].name@ == name
            &&& living.contains(units[i].entity_id)
            &&& ids[i] == units[i].entity_id
            &&& before.contains((sim_id, units[i]))
        },
        forall|i: int| 0 <= i < before.len() && (#[trigger] before[i]).0 == sim_id && before[i].1.owner_id == owner_id
            && before[i].1.name@ == name && living.contains(before[i].1.entity_id)
            ==> units.contains(before[i].1) && ids.contains(before[i].1.entity_id),
{
    let listed = after.filter(owned_named(sim_id, owner_id, name));
    before.filter_lemma(unit_survives(sim_id, living));
    after.filter_lemma(owned_named(sim_id, owner_id, name));
    assert forall|i: int| 0 <= i < units.len() implies {
        &&& (#[trigger] units[i]).owner_id == owner_id
        &&& units[i].name@ == name
        &&& living.contains(units[i].entity_id)
        &&& ids[i] == units[i].entity_id
        &&& before.contains((sim_id, units[i]))
    } by {
        assert(owned_named(sim_id, owner_id, name)(listed[i]));
        assert(listed.contains(listed[i]));
        after.lemma_filter_contains_rev(owned_named(sim_id, owner_id, name), listed[i]);
        before.lemma_filter_contains_rev(unit_survives(sim_id, living), listed[i]);
        assert(listed[i] == (sim_id, units[i]));
        let k = choose|k: int| 0 <= k < after.len() && after[k] == listed[i];
        assert(unit_survives(sim_id, living)(after[k]));
    }
    assert forall|i: int| 0 <= i < before.len() && (#[trigger] before[i]).0 == sim_id && before[i].1.owner_id == owner_id
        && before[i].1.name@ == name && living.contains(before[i].1.entity_id)
        implies units.contains(before[i].1) && ids.contains(before[i].1.entity_id) by {
        assert(after.contains(before[i]));
        let k = choose|k: int| 0 <= k < after.len() && after[k] == before[i];
        assert(owned_named(sim_id, owner_id, name)(after[k]));
        assert(listed.contains(before[i]));
        let m = choose|m: int| 0 <= m < listed.len() && listed[m] == before[i];
        assert(units[m] == before[i].1);
        assert(ids[m] == before[i].1.entity_id);
    }
}

} // verus!
