//! Buff visuals (which bound buff effect is shown where, and for how long)
//! and view effects that follow projectiles.
use vstd::prelude::*;
use crate::geometry::EntityPos;
use crate::text::{is_blank, str_eq, str_is_blank};
use crate::buff_persistence::sat_sub_usize;
use crate::seq_util::vec_retain;
use crate::state::{ModState, player_data_same, ownership_same};
use crate::table::{key_pred, lemma_lookup_filter, lookup, table_get, table_get_ref, table_insert};
use crate::world::{BuffInfo, EntityInfo, ProjectileInfo, SimOrigin};

verus! {

broadcast use {vstd::seq_lib::group_seq_properties, vstd::seq::group_seq_axioms};

/// A buff visual to draw: its binding, the entity and its position, and how
/// long the buff has been shown.
pub struct BuffVfxSnapshot {
    pub binding_name: String,
    pub entity_id: usize,
    pub pos: EntityPos,
    pub elapsed_ticks: usize,
}

/// A view effect tracking the projectile a caster launched.
pub struct ProjectileViewEffect {
    pub sim_id: usize,
    pub caster_id: usize,
    pub name: String,
    pub effect_name: String,
    pub radius: u64,
    pub last_x: u64,
    pub last_y: u64,
}

// ------------------------------------------------------------------
// Bindings and frames
// ------------------------------------------------------------------

/// A buff name bound to an animated sprite: its texture, draw depth and the
/// durations (in ticks) of its frames.
pub struct Binding {
    pub name: String,
    pub texture: String,
    pub z: i32,
    pub frame_durations: Vec<usize>,
}

/// Some binding is named `name`.
pub open spec fn is_bound(bindings: Seq<Binding>, name: Seq<char>) -> bool {
    exists|i: int| 0 <= i < bindings.len() && (#[trigger] bindings[i]).name@ == name
}

/// `i` is the first binding named `name`.
pub open spec fn is_first_binding(bindings: Seq<Binding>, i: int, name: Seq<char>) -> bool {
    &&& 0 <= i < bindings.len()
    &&& bindings[i].name@ == name
    &&& forall|j: int| 0 <= j < i ==> (#[trigger] bindings[j]).name@ != name
}

fn find_binding(bindings: &Vec<Binding>, name: &str) -> (r: Option<usize>)
    ensures
        r matches Some(i) ==> is_first_binding(bindings@, i as int, name@),
        r is None ==> !is_bound(bindings@, name@),
{
    let mut i: usize = 0;
    while i < bindings.len()
        invariant
            i <= bindings@.len(),
            forall|j: int| 0 <= j < i ==> (#[trigger] bindings@[j]).name@ != name@,
        decreases bindings.len() - i,
    {
        if str_eq(bindings[i].name.as_str(), name) {
            return Some(i);
        }
        i = i + 1;
    }
    None
}

/// The first binding named `name`.
pub fn binding<'a>(bindings: &'a Vec<Binding>, name: &str) -> (r: Option<&'a Binding>)
    ensures
        r matches Some(b) ==> exists|i: int| is_first_binding(bindings@, i, name@) && *b == bindings@[i],
        r is None ==> !is_bound(bindings@, name@),
{
    match find_binding(bindings, name) {
        Some(i) => Some(&bindings[i]),
        None => None,
    }
}

/// Whether a binding is named `name`.
pub fn binding_exists(bindings: &Vec<Binding>, name: &str) -> (r: bool)
    ensures
        r == is_bound(bindings@, name@),
{
    find_binding(bindings, name).is_some()
}

/// Ticks a frame is shown: its duration, at least one.
pub open spec fn frame_weight(d: usize) -> nat {
    if d < 1 { 1 } else { d as nat }
}

/// Total ticks of a sequence of frames.
pub open spec fn weight_sum(ds: Seq<usize>) -> nat
    decreases ds.len(),
{
    if ds.len() == 0 { 0 } else { weight_sum(ds.drop_last()) + frame_weight(ds.last()) }
}

proof fn lemma_weight_prefix(ds: Seq<usize>, i: int)
    requires
        0 <= i <= ds.len(),
    ensures
        weight_sum(ds.take(i)) <= weight_sum(ds),
        weight_sum(ds.take(i)) >= i,
    decreases ds.len() - i,
{
    lemma_weight_lower(ds.take(i));
    if i < ds.len() {
        lemma_weight_prefix(ds, i + 1);
        assert(ds.take(i + 1).drop_last() =~= ds.take(i));
    } else {
        assert(ds.take(i) =~= ds);
    }
}

proof fn lemma_weight_lower(ds: Seq<usize>)
    ensures
        weight_sum(ds) >= ds.len(),
    decreases ds.len(),
{
    if ds.len() > 0 {
        lemma_weight_lower(ds.drop_last());
    }
}

/// The frame of an animation shown `elapsed_ticks` after it started, the
/// animation looping over its total duration: the frame whose tick span
/// contains `elapsed_ticks` modulo the total. `None` without frames.
pub fn frame_for(binding: &Binding, elapsed_ticks: usize) -> (r: Option<usize>)
    requires
        weight_sum(binding.frame_durations@) <= usize::MAX,
    ensures
        binding.frame_durations@.len() == 0 ==> r is None,
        binding.frame_durations@.len() > 0 ==> (r matches Some(i) && i < binding.frame_durations@.len() && {
            let ds = binding.frame_durations@;
            let c = elapsed_ticks as int % weight_sum(ds) as int;
            weight_sum(ds.take(i as int)) <= c < weight_sum(ds.take(i as int + 1))
        }),
{
    let ds = &binding.frame_durations;
    let n = ds.len();
    if n == 0 {
        return None;
    }
    let mut total: usize = 0;
    let mut i: usize = 0;
    while i < n
        invariant
            n == ds@.len(),
            ds@ == binding.frame_durations@,
            i <= n,
            total == weight_sum(ds@.take(i as int)),
            weight_sum(ds@) <= usize::MAX,
        decreases n - i,
    {
        assert(ds@.take(i as int + 1).drop_last() =~= ds@.take(i as int));
        proof {
            lemma_weight_prefix(ds@, i as int + 1);
        }
        let w = if ds[i] < 1 { 1 } else { ds[i] };
        total = total + w;
        i = i + 1;
    }
    assert(ds@.take(n as int) =~= ds@);
    proof {
        lemma_weight_lower(ds@);
    }
    let total = if total < 1 { 1 } else { total };
    let start = elapsed_ticks % total;
    let mut cursor = start;
    let mut k: usize = 0;
    assert(ds@.take(0) =~= Seq::<usize>::empty());
    while k < n
        invariant
            n == ds@.len(),
            ds@ == binding.frame_durations@,
            start == elapsed_ticks % total,
            n > 0,
            k <= n,
            total == weight_sum(ds@),
            start < total,
            weight_sum(ds@.take(k as int)) <= start,
            cursor == start - weight_sum(ds@.take(k as int)),
        decreases n - k,
    {
        assert(ds@.take(k as int + 1).drop_last() =~= ds@.take(k as int));
        assert(ds@.take(k as int + 1).last() == ds@[k as int]);
        let w = if ds[k] < 1 { 1 } else { ds[k] };
        if cursor < w {
            return Some(k);
        }
        cursor = cursor - w;
        k = k + 1;
    }
    assert(ds@.take(n as int) =~= ds@);
    Some(n - 1)
}

// ------------------------------------------------------------------
// Buff visual snapshots
// ------------------------------------------------------------------

/// Distinct bound buff names of an entity, in order of first appearance.
pub open spec fn entity_visual_names(buffs: Seq<BuffInfo>, bindings: Seq<Binding>) -> Seq<Seq<char>>
    decreases buffs.len(),
{
    if buffs.len() == 0 {
        Seq::empty()
    } else {
        let pre = entity_visual_names(buffs.drop_last(), bindings);
        let n = buffs.last().name@;
        if is_bound(bindings, n) && !pre.contains(n) { pre.push(n) } else { pre }
    }
}

/// The visuals to show: for each alive entity in order, its distinct bound
/// buff names, with the entity's id and position.
pub open spec fn visual_entries(es: Seq<EntityInfo>, bindings: Seq<Binding>) -> Seq<(usize, Seq<char>, EntityPos)>
    decreases es.len(),
{
    if es.len() == 0 {
        Seq::empty()
    } else {
        let pre = visual_entries(es.drop_last(), bindings);
        let e = es.last();
        if e.alive {
            pre + entity_visual_names(e.buffs@, bindings).map_values(|n: Seq<char>| (e.id, n, e.pos))
        } else {
            pre
        }
    }
}

/// When the visual of buff `name` on `entity_id` started: the remembered
/// tick, or `now` for a new one.
pub open spec fn start_tick(starts: Seq<((usize, usize, String), usize)>, sim_id: usize, entity_id: usize, name: Seq<char>, now: usize) -> usize {
    match lookup(starts, (sim_id, entity_id, name)) {
        Some(t) => t,
        None => now,
    }
}

/// The entries show buff `name` on `entity_id`.
pub open spec fn shows(entries: Seq<(usize, Seq<char>, EntityPos)>, entity_id: usize, name: Seq<char>) -> bool {
    exists|i: int| 0 <= i < entries.len() && (#[trigger] entries[i]).0 == entity_id && entries[i].1 == name
}

/// The snapshot is the given visual entry, shown for `elapsed` ticks.
pub open spec fn snapshot_is(s: BuffVfxSnapshot, e: (usize, Seq<char>, EntityPos), elapsed: usize) -> bool {
    s.binding_name@ == e.1 && s.entity_id == e.0 && s.pos == e.2 && s.elapsed_ticks == elapsed
}

fn visible_names(e: &EntityInfo, bindings: &Vec<Binding>) -> (r: Vec<String>)
    ensures
        r@.map_values(|n: String| n@) == entity_visual_names(e.buffs@, bindings@),
{
    let mut names: Vec<String> = Vec::new();
    let mut i: usize = 0;
    assert(e.buffs@.take(0) =~= Seq::<BuffInfo>::empty());
    assert(names@.map_values(|n: String| n@) =~= Seq::<Seq<char>>::empty());
    while i < e.buffs.len()
        invariant
            i <= e.buffs@.len(),
            names@.map_values(|n: String| n@) == entity_visual_names(e.buffs@.take(i as int), bindings@),
        decreases e.buffs.len() - i,
    {
        assert(e.buffs@.take(i as int + 1).drop_last() =~= e.buffs@.take(i as int));
        let name = &e.buffs[i].name;
        if binding_exists(bindings, name.as_str()) {
            let mut found = false;
            let mut k: usize = 0;
            while k < names.len()
                invariant
                    k <= names@.len(),
                    found == exists|m: int| 0 <= m < k && names@[m]@ == name@,
                decreases names.len() - k,
            {
                if str_eq(names[k].as_str(), name.as_str()) {
                    found = true;
                }
                k = k + 1;
            }
            let ghost pre = names@.map_values(|n: String| n@);
            assert(found == pre.contains(name@)) by {
                if found {
                    let m = choose|m: int| 0 <= m < names@.len() && names@[m]@ == name@;
                    assert(pre[m] == name@);
                }
                if pre.contains(name@) {
                    let m = choose|m: int| 0 <= m < pre.len() && pre[m] == name@;
                    assert(names@[m]@ == name@);
                }
            }
            if !found {
                names.push(name.clone());
                assert(names@.map_values(|n: String| n@) =~= pre.push(name@));
            }
        }
        i = i + 1;
    }
    assert(e.buffs@.take(i as int) =~= e.buffs@);
    names
}

/// Start ticks kept after a refresh: other simulations', and those still
/// shown.
pub open spec fn start_kept(sim_id: usize, entries: Seq<(usize, Seq<char>, EntityPos)>) -> spec_fn((usize, usize, Seq<char>)) -> bool {
    |k: (usize, usize, Seq<char>)| k.0 != sim_id || shows(entries, k.1, k.2)
}

fn shows_exec(current: &Vec<(usize, String)>, entity_id: usize, name: &str, Ghost(entries): Ghost<Seq<(usize, Seq<char>, EntityPos)>>) -> (r: bool)
    requires
        current@.len() == entries.len(),
        forall|i: int| 0 <= i < entries.len() ==> (#[trigger] current@[i]).0 == entries[i].0 && current@[i].1@ == entries[i].1,
    ensures
        r == shows(entries, entity_id, name@),
{
    let mut i: usize = 0;
    while i < current.len()
        invariant
            i <= current@.len(),
            current@.len() == entries.len(),
            forall|j: int| 0 <= j < entries.len() ==> (#[trigger] current@[j]).0 == entries[j].0 && current@[j].1@ == entries[j].1,
            forall|j: int| 0 <= j < i ==> !((#[trigger] entries[j]).0 == entity_id && entries[j].1 == name@),
        decreases current.len() - i,
    {
        if current[i].0 == entity_id && str_eq(current[i].1.as_str(), name) {
            assert(entries[i as int].0 == entity_id && entries[i as int].1 == name@);
            return true;
        }
        i = i + 1;
    }
    false
}

/// Rebuilds the simulation's buff visuals at tick `now`: every alive
/// entity's distinct bound buffs, with how long each has been shown (its
/// start tick is remembered from the first refresh that showed it). Start
/// ticks of visuals no longer shown are forgotten, other simulations' are
/// kept, and this simulation becomes the one whose visuals are published.
pub fn refresh_buff_visuals<B>(st: &mut ModState<B>, sim_id: usize, now: usize, entities: &Vec<EntityInfo>, bindings: &Vec<Binding>)
    ensures
        ({
            let entries = visual_entries(entities@, bindings@);
            &&& lookup(final(st).buff_vfx_by_sim@, sim_id) matches Some(v) && v@.len() == entries.len()
                && forall|i: int| 0 <= i < entries.len() ==> snapshot_is(#[trigger] v@[i], entries[i],
                    sat_sub_usize(now as int, start_tick(old(st).buff_vfx_starts@, sim_id, entries[i].0, entries[i].1, now) as int))
            &&& forall|k: usize| k != sim_id ==> #[trigger] lookup(final(st).buff_vfx_by_sim@, k) == lookup(old(st).buff_vfx_by_sim@, k)
            &&& forall|k: (usize, usize, Seq<char>)| #[trigger] lookup(final(st).buff_vfx_starts@, k) == if k.0 != sim_id {
                lookup(old(st).buff_vfx_starts@, k)
            } else if shows(entries, k.1, k.2) {
                Some(start_tick(old(st).buff_vfx_starts@, sim_id, k.1, k.2, now))
            } else {
                None
            }
            &&& final(st).latest_buff_vfx_sim == sim_id
        }),
        final(st).projectile_view_effects@ == old(st).projectile_view_effects@,
        final(st).next_projectile_view_effect_id == old(st).next_projectile_view_effect_id,
        player_data_same(*old(st), *final(st)),
        ownership_same(*old(st), *final(st)),
        final(st).missed_owner_lookups == old(st).missed_owner_lookups,
        final(st).periodics@ == old(st).periodics@,
        final(st).aggregation_scopes@ == old(st).aggregation_scopes@,
{
    let ghost old_starts = st.buff_vfx_starts@;
    let ghost all = visual_entries(entities@, bindings@);
    let mut snapshots: Vec<BuffVfxSnapshot> = Vec::new();
    let mut current: Vec<(usize, String)> = Vec::new();
    let ghost mut done: Seq<(usize, Seq<char>, EntityPos)> = Seq::empty();
    let mut i: usize = 0;
    assert(entities@.take(0) =~= Seq::<EntityInfo>::empty());
    while i < entities.len()
        invariant
            i <= entities@.len(),
            done == visual_entries(entities@.take(i as int), bindings@),
            snapshots@.len() == done.len(),
            current@.len() == done.len(),
            forall|j: int| 0 <= j < done.len() ==> snapshot_is(#[trigger] snapshots@[j], done[j],
                sat_sub_usize(now as int, start_tick(old_starts, sim_id, done[j].0, done[j].1, now) as int)),
            forall|j: int| 0 <= j < done.len() ==> (#[trigger] current@[j]).0 == done[j].0 && current@[j].1@ == done[j].1,
            forall|k: (usize, usize, Seq<char>)| #[trigger] lookup(st.buff_vfx_starts@, k) == if k.0 == sim_id && shows(done, k.1, k.2) {
                Some(start_tick(old_starts, sim_id, k.1, k.2, now))
            } else {
                lookup(old_starts, k)
            },
            st.buff_vfx_by_sim@ == old(st).buff_vfx_by_sim@,
            st.latest_buff_vfx_sim == old(st).latest_buff_vfx_sim,
            st.projectile_view_effects@ == old(st).projectile_view_effects@,
            st.next_projectile_view_effect_id == old(st).next_projectile_view_effect_id,
            player_data_same(*old(st), *st),
            ownership_same(*old(st), *st),
            st.missed_owner_lookups == old(st).missed_owner_lookups,
            st.periodics@ == old(st).periodics@,
            st.aggregation_scopes@ == old(st).aggregation_scopes@,
        decreases entities.len() - i,
    {
        assert(entities@.take(i as int + 1).drop_last() =~= entities@.take(i as int));
        assert(entities@.take(i as int + 1).last() == entities@[i as int]);
        let e = &entities[i];
        if e.alive {
            let names = visible_names(e, bindings);
            let ghost names_v = names@.map_values(|n: String| n@);
            let ghost base = done;
            let mut j: usize = 0;
            while j < names.len()
                invariant
                    j <= names@.len(),
                    names_v == names@.map_values(|n: String| n@),
                    done == base + names_v.take(j as int).map_values(|n: Seq<char>| (e.id, n, e.pos)),
                    snapshots@.len() == done.len(),
                    current@.len() == done.len(),
                    forall|m: int| 0 <= m < done.len() ==> snapshot_is(#[trigger] snapshots@[m], done[m],
                        sat_sub_usize(now as int, start_tick(old_starts, sim_id, done[m].0, done[m].1, now) as int)),
                    forall|m: int| 0 <= m < done.len() ==> (#[trigger] current@[m]).0 == done[m].0 && current@[m].1@ == done[m].1,
                    forall|k: (usize, usize, Seq<char>)| #[trigger] lookup(st.buff_vfx_starts@, k) == if k.0 == sim_id && shows(done, k.1, k.2) {
                        Some(start_tick(old_starts, sim_id, k.1, k.2, now))
                    } else {
                        lookup(old_starts, k)
                    },
                    st.buff_vfx_by_sim@ == old(st).buff_vfx_by_sim@,
                    st.latest_buff_vfx_sim == old(st).latest_buff_vfx_sim,
                    st.projectile_view_effects@ == old(st).projectile_view_effects@,
                    st.next_projectile_view_effect_id == old(st).next_projectile_view_effect_id,
                    player_data_same(*old(st), *st),
                    ownership_same(*old(st), *st),
                    st.missed_owner_lookups == old(st).missed_owner_lookups,
                    st.periodics@ == old(st).periodics@,
                    st.aggregation_scopes@ == old(st).aggregation_scopes@,
                decreases names.len() - j,
            {
                let name = &names[j];
                let ghost entry = (e.id, name@, e.pos);
                let key = (sim_id, e.id, name.clone());
                let started = match table_get(&st.buff_vfx_starts, &key) {
                    Some(t) => t,
                    None => {
                        table_insert(&mut st.buff_vfx_starts, key, now);
                        now
                    },
                };
                assert(started == start_tick(old_starts, sim_id, e.id, name@, now)) by {
                    if shows(done, e.id, name@) {
                    } else {
                    }
                }
                let elapsed = now.saturating_sub(started);
                snapshots.push(BuffVfxSnapshot { binding_name: name.clone(), entity_id: e.id, pos: e.pos, elapsed_ticks: elapsed });
                current.push((e.id, name.clone()));
                let ghost prev = done;
                proof {
                    done = done.push(entry);
                    assert(names_v.take(j as int + 1) =~= names_v.take(j as int).push(name@));
                    assert(done =~= base + names_v.take(j as int + 1).map_values(|n: Seq<char>| (e.id, n, e.pos)));
                    assert forall|k: (usize, usize, Seq<char>)| k.0 == sim_id implies shows(done, k.1, k.2) == (shows(prev, k.1, k.2) || (k.1 == e.id && k.2 == name@)) by {
                        if shows(done, k.1, k.2) {
                            let m = choose|m: int| 0 <= m < done.len() && (#[trigger] done[m]).0 == k.1 && done[m].1 == k.2;
                            if m < prev.len() {
                                assert(prev[m] == done[m]);
                            }
                        }
                        if shows(prev, k.1, k.2) {
                            let m = choose|m: int| 0 <= m < prev.len() && (#[trigger] prev[m]).0 == k.1 && prev[m].1 == k.2;
                            assert(done[m] == prev[m]);
                        }
                        if k.1 == e.id && k.2 == name@ {
                            assert(done[prev.len() as int] == entry);
                        }
                    }
                }
                j = j + 1;
            }
            assert(names_v.take(j as int) =~= names_v);
            assert(done =~= visual_entries(entities@.take(i as int + 1), bindings@));
        } else {
            assert(done =~= visual_entries(entities@.take(i as int + 1), bindings@));
        }
        i = i + 1;
    }
    assert(entities@.take(i as int) =~= entities@);
    let ghost mid = st.buff_vfx_starts@;
    let keep = |k: &((usize, usize, String), usize)| -> (b: bool)
        ensures
            b == ((k.0).0 != sim_id || shows(visual_entries(entities@, bindings@), (k.0).1, (k.0).2@)),
        { (k.0).0 != sim_id || shows_exec(&current, (k.0).1, (k.0).2.as_str(), Ghost(visual_entries(entities@, bindings@))) };
    vec_retain(&mut st.buff_vfx_starts, keep, Ghost(key_pred::<(usize, usize, String), usize>(start_kept(sim_id, all))));
    proof {
        assert forall|k: (usize, usize, Seq<char>)| #[trigger] lookup(st.buff_vfx_starts@, k) == if k.0 != sim_id {
            lookup(old_starts, k)
        } else if shows(all, k.1, k.2) {
            Some(start_tick(old_starts, sim_id, k.1, k.2, now))
        } else {
            None
        } by {
            lemma_lookup_filter(mid, start_kept(sim_id, all), k);
        }
    }
    table_insert(&mut st.buff_vfx_by_sim, sim_id, snapshots);
    st.latest_buff_vfx_sim = sim_id;
}

impl BuffVfxSnapshot {
    /// A field-by-field copy.
    pub fn duplicate(&self) -> (r: BuffVfxSnapshot)
        ensures
            r == *self,
    {
        BuffVfxSnapshot {
            binding_name: self.binding_name.clone(),
            entity_id: self.entity_id,
            pos: self.pos,
            elapsed_ticks: self.elapsed_ticks,
        }
    }
}

/// The buff visuals of the most recently refreshed simulation (none when
/// it has none stored).
pub fn buff_vfx_snapshot<B>(st: &ModState<B>) -> (r: Vec<BuffVfxSnapshot>)
    ensures
        match lookup(st.buff_vfx_by_sim@, st.latest_buff_vfx_sim) {
            Some(v) => r@ == v@,
            None => r@.len() == 0,
        },
{
    let mut out: Vec<BuffVfxSnapshot> = Vec::new();
    match table_get_ref(&st.buff_vfx_by_sim, &st.latest_buff_vfx_sim) {
        Some(v) => {
            let mut i: usize = 0;
            while i < v.len()
                invariant
                    i <= v@.len(),
                    out@ == v@.take(i as int),
                decreases v.len() - i,
            {
                out.push(v[i].duplicate());
                assert(out@ =~= v@.take(i as int + 1));
                i = i + 1;
            }
            assert(v@.take(i as int) =~= v@);
            out
        },
        None => out,
    }
}

// ------------------------------------------------------------------
// View effects following projectiles
// ------------------------------------------------------------------

/// Presentation work only runs for simulations watched live: a client's
/// match view, spectating or replay.
pub open spec fn spec_is_presentation_viable(origin: Option<SimOrigin>) -> bool {
    match origin {
        Some(o) => o == SimOrigin::ClientMatchView || o == SimOrigin::ClientSpectate || o == SimOrigin::ClientReplay,
        None => false,
    }
}

/// Whether the simulation is watched live.
pub fn is_presentation_viable(origin: Option<SimOrigin>) -> (r: bool)
    ensures
        r == spec_is_presentation_viable(origin),
{
    match origin {
        Some(SimOrigin::ClientMatchView) | Some(SimOrigin::ClientSpectate) | Some(SimOrigin::ClientReplay) => true,
        _ => false,
    }
}

/// Trackers other than the caster's tracker for projectile `name`.
pub open spec fn other_tracker(sim_id: usize, caster_id: usize, name: Seq<char>) -> spec_fn((usize, ProjectileViewEffect)) -> bool {
    |e: (usize, ProjectileViewEffect)| e.1.sim_id != sim_id || e.1.caster_id != caster_id || e.1.name@ != name
}

/// The trackers after `start_projectile_view_effect`.
pub open spec fn tracker_started<B>(a: ModState<B>, b: ModState<B>, sim_id: usize, origin: Option<SimOrigin>, caster_id: usize, name: Seq<char>, x: u64, y: u64, effect_name: Seq<char>, radius: u64) -> bool {
    if is_blank(effect_name) || !spec_is_presentation_viable(origin) {
        b.projectile_view_effects@ == a.projectile_view_effects@
            && b.next_projectile_view_effect_id == a.next_projectile_view_effect_id
    } else {
        let id = a.next_projectile_view_effect_id;
        let kept = a.projectile_view_effects@.filter(other_tracker(sim_id, caster_id, name));
        &&& b.next_projectile_view_effect_id == id.wrapping_add(1)
        &&& lookup(b.projectile_view_effects@, id) matches Some(v) && v.sim_id == sim_id && v.caster_id == caster_id
            && v.name@ == name && v.effect_name@ == effect_name && v.radius == radius && v.last_x == x && v.last_y == y
        &&& forall|k: usize| k != id ==> #[trigger] lookup(b.projectile_view_effects@, k) == lookup(kept, k)
    }
}

/// Starts a view effect that follows the caster's projectile `name` from
/// `(x, y)`, replacing the caster's earlier tracker of that projectile.
/// Nothing happens for a blank effect name or a simulation nobody watches.
pub fn start_projectile_view_effect<B>(
    st: &mut ModState<B>,
    sim_id: usize,
    origin: Option<SimOrigin>,
    caster_id: usize,
    name: &str,
    x: u64,
    y: u64,
    effect_name: &str,
    radius: u64,
)
    ensures
        tracker_started(*old(st), *final(st), sim_id, origin, caster_id, name@, x, y, effect_name@, radius),
        final(st).buff_vfx_by_sim@ == old(st).buff_vfx_by_sim@,
        final(st).buff_vfx_starts@ == old(st).buff_vfx_starts@,
        final(st).latest_buff_vfx_sim == old(st).latest_buff_vfx_sim,
        player_data_same(*old(st), *final(st)),
        ownership_same(*old(st), *final(st)),
        final(st).missed_owner_lookups == old(st).missed_owner_lookups,
        final(st).periodics@ == old(st).periodics@,
        final(st).aggregation_scopes@ == old(st).aggregation_scopes@,
{
    if str_is_blank(effect_name) || !is_presentation_viable(origin) {
        return;
    }
    let keep = |e: &(usize, ProjectileViewEffect)| -> (b: bool)
        ensures
            b == (e.1.sim_id != sim_id || e.1.caster_id != caster_id || e.1.name@ != name@),
        { e.1.sim_id != sim_id || e.1.caster_id != caster_id || !str_eq(e.1.name.as_str(), name) };
    vec_retain(&mut st.projectile_view_effects, keep, Ghost(other_tracker(sim_id, caster_id, name@)));
    let id = st.next_projectile_view_effect_id;
    st.next_projectile_view_effect_id = id.wrapping_add(1);
    table_insert(&mut st.projectile_view_effects, id, ProjectileViewEffect {
        sim_id,
        caster_id,
        name: String::from_str(name),
        effect_name: String::from_str(effect_name),
        radius,
        last_x: x,
        last_y: y,
    });
}

/// Trackers of other simulations.
pub open spec fn tracker_of_other_sim(sim_id: usize) -> spec_fn((usize, ProjectileViewEffect)) -> bool {
    |e: (usize, ProjectileViewEffect)| e.1.sim_id != sim_id
}

/// Drops the simulation's projectile trackers; other simulations keep
/// theirs.
pub fn clear_projectile_view_effects<B>(st: &mut ModState<B>, sim_id: usize)
    ensures
        final(st).projectile_view_effects@ == old(st).projectile_view_effects@.filter(tracker_of_other_sim(sim_id)),
        final(st).next_projectile_view_effect_id == old(st).next_projectile_view_effect_id,
        final(st).buff_vfx_by_sim@ == old(st).buff_vfx_by_sim@,
        final(st).buff_vfx_starts@ == old(st).buff_vfx_starts@,
        final(st).latest_buff_vfx_sim == old(st).latest_buff_vfx_sim,
        player_data_same(*old(st), *final(st)),
        ownership_same(*old(st), *final(st)),
        final(st).missed_owner_lookups == old(st).missed_owner_lookups,
        final(st).periodics@ == old(st).periodics@,
        final(st).aggregation_scopes@ == old(st).aggregation_scopes@,
{
    let keep = |e: &(usize, ProjectileViewEffect)| -> (b: bool)
        ensures
            b == (e.1.sim_id != sim_id),
        { e.1.sim_id != sim_id };
    vec_retain(&mut st.projectile_view_effects, keep, Ghost(tracker_of_other_sim(sim_id)));
}

/// `|a - b|`.
pub open spec fn abs_diff(a: u64, b: u64) -> u64 {
    if a >= b { (a - b) as u64 } else { (b - a) as u64 }
}

/// `a * b`, saturating at `u64::MAX`.
pub open spec fn sat_mul_u64(a: u64, b: u64) -> u64 {
    if a * b > u64::MAX { u64::MAX } else { (a * b) as u64 }
}

/// Squared distance of a projectile from the tracked position (saturating).
pub open spec fn track_distance(p: ProjectileInfo, x: u64, y: u64) -> u64 {
    let dx = abs_diff(p.x, x);
    let dy = abs_diff(p.y, y);
    let s = sat_mul_u64(dx, dx) + sat_mul_u64(dy, dy);
    if s > u64::MAX { u64::MAX } else { s as u64 }
}

/// The caster's projectile nearest to `(x, y)` (the first of equally near
/// ones).
pub open spec fn nearest_projectile(ps: Seq<ProjectileInfo>, caster_id: usize, x: u64, y: u64) -> Option<ProjectileInfo>
    decreases ps.len(),
{
    if ps.len() == 0 {
        None
    } else {
        let best = nearest_projectile(ps.drop_last(), caster_id, x, y);
        let p = ps.last();
        if p.caster_id == caster_id && (best is None || track_distance(p, x, y) < track_distance(best->0, x, y)) {
            Some(p)
        } else {
            best
        }
    }
}

/// The projectile a tracker of this simulation moves to, if it continues.
pub open spec fn tracker_next(e: ProjectileViewEffect, sim_id: usize, ps: Seq<ProjectileInfo>) -> Option<ProjectileInfo> {
    if e.sim_id != sim_id {
        None
    } else {
        match nearest_projectile(ps, e.caster_id, e.last_x, e.last_y) {
            Some(p) => if p.is_end { None } else { Some(p) },
            None => None,
        }
    }
}

/// A tracker after one update.
pub open spec fn tracker_updated(e: (usize, ProjectileViewEffect), sim_id: usize, ps: Seq<ProjectileInfo>) -> (usize, ProjectileViewEffect) {
    match tracker_next(e.1, sim_id, ps) {
        Some(p) => (e.0, ProjectileViewEffect { last_x: p.x, last_y: p.y, ..e.1 }),
        None => e,
    }
}

/// Ids of this simulation's trackers whose projectile is gone or ended.
pub open spec fn ended_trackers(es: Seq<(usize, ProjectileViewEffect)>, sim_id: usize, ps: Seq<ProjectileInfo>) -> Seq<usize>
    decreases es.len(),
{
    if es.len() == 0 {
        Seq::empty()
    } else {
        let pre = ended_trackers(es.drop_last(), sim_id, ps);
        let e = es.last();
        if e.1.sim_id == sim_id && tracker_next(e.1, sim_id, ps) is None { pre.push(e.0) } else { pre }
    }
}

/// One view effect to play at a position.
pub struct ViewEffectPlay {
    pub effect_name: String,
    pub caster_id: usize,
    pub x: u64,
    pub y: u64,
    pub radius: u64,
}

/// The plays of one update, in tracker order: each continuing tracker plays
/// its effect at its projectile's new position.
pub open spec fn tracker_plays(es: Seq<(usize, ProjectileViewEffect)>, sim_id: usize, ps: Seq<ProjectileInfo>) -> Seq<(Seq<char>, usize, u64, u64, u64)>
    decreases es.len(),
{
    if es.len() == 0 {
        Seq::empty()
    } else {
        let pre = tracker_plays(es.drop_last(), sim_id, ps);
        let e = es.last().1;
        match tracker_next(e, sim_id, ps) {
            Some(p) => pre.push((e.effect_name@, e.caster_id, p.x, p.y, e.radius)),
            None => pre,
        }
    }
}

/// The view of a play.
pub open spec fn play_view(a: ViewEffectPlay) -> (Seq<char>, usize, u64, u64, u64) {
    (a.effect_name@, a.caster_id, a.x, a.y, a.radius)
}

/// Trackers whose id did not end.
pub open spec fn not_ended(ended: Seq<usize>) -> spec_fn((usize, ProjectileViewEffect)) -> bool {
    |e: (usize, ProjectileViewEffect)| !ended.contains(e.0)
}

/// The trackers after one update: each moved along, without the ended ones.
pub open spec fn trackers_after_update(es: Seq<(usize, ProjectileViewEffect)>, sim_id: usize, ps: Seq<ProjectileInfo>) -> Seq<(usize, ProjectileViewEffect)> {
    es.map_values(|e: (usize, ProjectileViewEffect)| tracker_updated(e, sim_id, ps)).filter(not_ended(ended_trackers(es, sim_id, ps)))
}

fn track_dist(p: &ProjectileInfo, x: u64, y: u64) -> (r: u64)
    ensures
        r == track_distance(*p, x, y),
{
    let dx = if p.x >= x { p.x - x } else { x - p.x };
    let dy = if p.y >= y { p.y - y } else { y - p.y };
    proof {
        if dx != 0 {
            assert((dx <= u64::MAX / dx) <==> (dx * dx <= u64::MAX)) by (nonlinear_arith)
                requires
                    dx > 0,
            {
                let q = u64::MAX as int / dx as int;
                assert(u64::MAX as int == dx * q + u64::MAX as int % dx as int);
                if dx <= q {
                    assert(dx * dx <= dx * q);
                } else {
                    assert(dx * (q + 1) <= dx * dx);
                }
            }
        }
        if dy != 0 {
            assert((dy <= u64::MAX / dy) <==> (dy * dy <= u64::MAX)) by (nonlinear_arith)
                requires
                    dy > 0,
            {
                let q = u64::MAX as int / dy as int;
                assert(u64::MAX as int == dy * q + u64::MAX as int % dy as int);
                if dy <= q {
                    assert(dy * dy <= dy * q);
                } else {
                    assert(dy * (q + 1) <= dy * dy);
                }
            }
        }
    }
    let dx2 = if dx == 0 { 0 } else if dx <= u64::MAX / dx { dx * dx } else { u64::MAX };
    let dy2 = if dy == 0 { 0 } else if dy <= u64::MAX / dy { dy * dy } else { u64::MAX };
    dx2.saturating_add(dy2)
}

fn nearest(ps: &Vec<ProjectileInfo>, caster_id: usize, x: u64, y: u64) -> (r: Option<ProjectileInfo>)
    ensures
        r == nearest_projectile(ps@, caster_id, x, y),
{
    let mut best: Option<ProjectileInfo> = None;
    let mut best_d: u64 = 0;
    let mut i: usize = 0;
    while i < ps.len()
        invariant
            i <= ps@.len(),
            best == nearest_projectile(ps@.take(i as int), caster_id, x, y),
            best matches Some(b) ==> best_d == track_distance(b, x, y),
        decreases ps.len() - i,
    {
        assert(ps@.take(i as int + 1).drop_last() =~= ps@.take(i as int));
        let p = ps[i];
        if p.caster_id == caster_id {
            let d = track_dist(&p, x, y);
            if best.is_none() || d < best_d {
                best = Some(p);
                best_d = d;
            }
        }
        i = i + 1;
    }
    assert(ps@.take(i as int) =~= ps@);
    best
}

fn id_in(ids: &Vec<usize>, id: usize) -> (r: bool)
    ensures
        r == ids@.contains(id),
{
    let mut i: usize = 0;
    while i < ids.len()
        invariant
            i <= ids@.len(),
            forall|j: int| 0 <= j < i ==> ids@[j] != id,
        decreases ids.len() - i,
    {
        if ids[i] == id {
            return true;
        }
        i = i + 1;
    }
    false
}

/// Moves the simulation's projectile trackers along: each follows its
/// caster's projectile nearest to its last position and plays its effect
/// there (returned in tracker order); a tracker whose projectile is gone or
/// ended is dropped. Nothing happens for a simulation nobody watches.
pub fn update_projectile_view_effects<B>(st: &mut ModState<B>, sim_id: usize, origin: Option<SimOrigin>, projectiles: &Vec<ProjectileInfo>) -> (r: Vec<ViewEffectPlay>)
    ensures
        if !spec_is_presentation_viable(origin) {
            r@.len() == 0 && final(st).projectile_view_effects@ == old(st).projectile_view_effects@
        } else {
            let es = old(st).projectile_view_effects@;
            &&& r@.map_values(|a: ViewEffectPlay| play_view(a)) == tracker_plays(es, sim_id, projectiles@)
            &&& final(st).projectile_view_effects@ == trackers_after_update(es, sim_id, projectiles@)
        },
        final(st).next_projectile_view_effect_id == old(st).next_projectile_view_effect_id,
        final(st).buff_vfx_by_sim@ == old(st).buff_vfx_by_sim@,
        final(st).buff_vfx_starts@ == old(st).buff_vfx_starts@,
        final(st).latest_buff_vfx_sim == old(st).latest_buff_vfx_sim,
        player_data_same(*old(st), *final(st)),
        ownership_same(*old(st), *final(st)),
        final(st).missed_owner_lookups == old(st).missed_owner_lookups,
        final(st).periodics@ == old(st).periodics@,
        final(st).aggregation_scopes@ == old(st).aggregation_scopes@,
{
    let mut plays: Vec<ViewEffectPlay> = Vec::new();
    if !is_presentation_viable(origin) {
        return plays;
    }
    let ghost es = st.projectile_view_effects@;
    let ghost ps = projectiles@;
    let mut old_list: Vec<(usize, ProjectileViewEffect)> = Vec::new();
    std::mem::swap(&mut old_list, &mut st.projectile_view_effects);
    let mut updated: Vec<(usize, ProjectileViewEffect)> = Vec::new();
    let mut ended: Vec<usize> = Vec::new();
    let mut i: usize = 0;
    assert(es.take(0) =~= Seq::<(usize, ProjectileViewEffect)>::empty());
    while i < old_list.len()
        invariant
            old_list@ == es,
            ps == projectiles@,
            i <= es.len(),
            updated@ == es.take(i as int).map_values(|e: (usize, ProjectileViewEffect)| tracker_updated(e, sim_id, ps)),
            ended@ == ended_trackers(es.take(i as int), sim_id, ps),
            plays@.map_values(|a: ViewEffectPlay| play_view(a)) == tracker_plays(es.take(i as int), sim_id, ps),
            st.projectile_view_effects@.len() == 0,
            st.next_projectile_view_effect_id == old(st).next_projectile_view_effect_id,
            st.buff_vfx_by_sim@ == old(st).buff_vfx_by_sim@,
            st.buff_vfx_starts@ == old(st).buff_vfx_starts@,
            st.latest_buff_vfx_sim == old(st).latest_buff_vfx_sim,
            player_data_same(*old(st), *st),
            ownership_same(*old(st), *st),
            st.missed_owner_lookups == old(st).missed_owner_lookups,
            st.periodics@ == old(st).periodics@,
            st.aggregation_scopes@ == old(st).aggregation_scopes@,
        decreases old_list.len() - i,
    {
        let ghost t = es.take(i as int + 1);
        assert(t.drop_last() =~= es.take(i as int));
        assert(t.last() == es[i as int]);
        let e = &old_list[i];
        let v = &e.1;
        let next = if v.sim_id != sim_id {
            None
        } else {
            match nearest(projectiles, v.caster_id, v.last_x, v.last_y) {
                Some(p) => if p.is_end { None } else { Some(p) },
                None => None,
            }
        };
        let copy = ProjectileViewEffect {
            sim_id: v.sim_id,
            caster_id: v.caster_id,
            name: v.name.clone(),
            effect_name: v.effect_name.clone(),
            radius: v.radius,
            last_x: v.last_x,
            last_y: v.last_y,
        };
        match next {
            Some(p) => {
                plays.push(ViewEffectPlay { effect_name: v.effect_name.clone(), caster_id: v.caster_id, x: p.x, y: p.y, radius: v.radius });
                updated.push((e.0, ProjectileViewEffect { last_x: p.x, last_y: p.y, ..copy }));
            },
            None => {
                if v.sim_id == sim_id {
                    ended.push(e.0);
                }
                updated.push((e.0, copy));
            },
        }
        assert(updated@ =~= t.map_values(|e: (usize, ProjectileViewEffect)| tracker_updated(e, sim_id, ps)));
        assert(plays@.map_values(|a: ViewEffectPlay| play_view(a)) =~= tracker_plays(t, sim_id, ps));
        i = i + 1;
    }
    assert(es.take(i as int) =~= es);
    let ghost ended_v = ended@;
    let keep = |e: &(usize, ProjectileViewEffect)| -> (b: bool)
        ensures
            b == !ended@.contains(e.0),
        { !id_in(&ended, e.0) };
    vec_retain(&mut updated, keep, Ghost(not_ended(ended@)));
    st.projectile_view_effects = updated;
    plays
}

} // verus!
