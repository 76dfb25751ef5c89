//! Periodic damage channels (damage-over-time instances) and delayed
//! triggers, scoped per simulation.
use vstd::prelude::*;
use crate::seq_util::{keys_unique, lemma_filter_keys_unique, lemma_push_keys_unique, lemma_update_keys_unique, vec_retain, vec_filter_copy};

verus! {

broadcast use {vstd::seq_lib::group_seq_properties, vstd::seq::group_seq_axioms};

/// One active periodic channel from `source_id` onto `target_id`.
#[derive(Clone, Copy, Debug)]
pub struct PeriodicInstance {
    pub sim_id: usize,
    pub source_id: usize,
    pub target_id: usize,
    pub effect_id: u64,
    pub end_tick: u64,
    pub next_tick: u64,
    pub interval: u64,
    pub stacks: usize,
}

/// All periodic channels of every simulation, in registration order.
pub struct PeriodicStore {
    pub instances: Vec<PeriodicInstance>,
}

impl View for PeriodicStore {
    type V = Seq<PeriodicInstance>;

    open spec fn view(&self) -> Seq<PeriodicInstance> {
        self.instances@
    }
}

/// The identity of a channel: simulation, source, target and effect.
pub open spec fn periodic_key(p: PeriodicInstance) -> (usize, usize, usize, u64) {
    (p.sim_id, p.source_id, p.target_id, p.effect_id)
}

/// The identity function on channels, as a key for `keys_unique`.
pub open spec fn periodic_key_fn() -> spec_fn(PeriodicInstance) -> (usize, usize, usize, u64) {
    |p: PeriodicInstance| periodic_key(p)
}

/// `i` is the first position of `s` whose channel has key `key`.
pub open spec fn is_first_match(s: Seq<PeriodicInstance>, i: int, key: (usize, usize, usize, u64)) -> bool {
    &&& 0 <= i < s.len()
    &&& periodic_key(s[i]) == key
    &&& forall|j: int| 0 <= j < i ==> periodic_key(#[trigger] s[j]) != key
}

/// No channel of `s` has key `key`.
pub open spec fn no_match(s: Seq<PeriodicInstance>, key: (usize, usize, usize, u64)) -> bool {
    forall|j: int| 0 <= j < s.len() ==> periodic_key(#[trigger] s[j]) != key
}

/// `a + b`, saturating at `u64::MAX`.
pub open spec fn sat_add_u64(a: int, b: int) -> u64 {
    if a + b > u64::MAX { u64::MAX } else { (a + b) as u64 }
}

/// A re-registration of an existing channel: one more stack when stacking is
/// allowed and under the cap (0 = uncapped), and a new end tick when
/// refreshing.
pub open spec fn restacked(
    p: PeriodicInstance,
    tick: u64,
    duration: u64,
    can_stack: bool,
    max_stacks: usize,
    refresh: bool,
) -> PeriodicInstance {
    let stacks = if can_stack && (max_stacks == 0 || p.stacks < max_stacks) {
        if p.stacks == usize::MAX { p.stacks } else { (p.stacks + 1) as usize }
    } else {
        p.stacks
    };
    let end_tick = if refresh { sat_add_u64(tick as int, duration as int) } else { p.end_tick };
    PeriodicInstance { stacks, end_tick, ..p }
}

/// A freshly registered channel with one stack.
pub open spec fn fresh_periodic(
    sim_id: usize,
    tick: u64,
    source_id: usize,
    target_id: usize,
    effect_id: u64,
    duration: u64,
    interval: u64,
    first_instant: bool,
) -> PeriodicInstance {
    let step = if interval < 1 { 1u64 } else { interval };
    PeriodicInstance {
        sim_id,
        source_id,
        target_id,
        effect_id,
        end_tick: sat_add_u64(tick as int, duration as int),
        next_tick: if first_instant { tick } else { sat_add_u64(tick as int, step as int) },
        interval: step,
        stacks: 1,
    }
}

/// The channels after `register_periodic`.
pub open spec fn spec_register_periodic(
    s: Seq<PeriodicInstance>,
    sim_id: usize,
    tick: usize,
    target_exists: bool,
    source_id: usize,
    target_id: usize,
    effect_id: u64,
    duration: u64,
    interval: u64,
    first_instant: bool,
    can_stack: bool,
    max_stacks: usize,
    refresh: bool,
) -> Seq<PeriodicInstance> {
    let key = (sim_id, source_id, target_id, effect_id);
    if duration == 0 || !target_exists {
        s
    } else if exists|i: int| is_first_match(s, i, key) {
        let i = choose|i: int| is_first_match(s, i, key);
        s.update(i, restacked(s[i], tick as u64, duration, can_stack, max_stacks, refresh))
    } else {
        s.push(fresh_periodic(sim_id, tick as u64, source_id, target_id, effect_id, duration, interval, first_instant))
    }
}

/// A channel survives pruning at `tick` when it belongs to another
/// simulation, or has not ended and its target is alive.
pub open spec fn survives(p: PeriodicInstance, sim_id: usize, tick: u64, living: Seq<usize>) -> bool {
    p.sim_id != sim_id || (p.end_tick > tick && living.contains(p.target_id))
}

/// `survives` as a predicate.
pub open spec fn survives_pred(sim_id: usize, tick: u64, living: Seq<usize>) -> spec_fn(PeriodicInstance) -> bool {
    |p: PeriodicInstance| survives(p, sim_id, tick, living)
}

/// A channel of `source_id` in this simulation whose next tick has come.
pub open spec fn is_due(p: PeriodicInstance, sim_id: usize, source_id: usize, tick: u64) -> bool {
    p.sim_id == sim_id && p.source_id == source_id && p.next_tick <= tick
}

/// `is_due` as a predicate.
pub open spec fn due_pred(sim_id: usize, source_id: usize, tick: u64) -> spec_fn(PeriodicInstance) -> bool {
    |p: PeriodicInstance| is_due(p, sim_id, source_id, tick)
}

/// Channels outside `sim_id`, or outside `source_id` when one is given.
pub open spec fn kept_after_clear(p: PeriodicInstance, sim_id: usize, source_id: Option<usize>) -> bool {
    p.sim_id != sim_id || (source_id is Some && p.source_id != source_id->0)
}

/// `kept_after_clear` as a predicate.
pub open spec fn clear_pred(sim_id: usize, source_id: Option<usize>) -> spec_fn(PeriodicInstance) -> bool {
    |p: PeriodicInstance| kept_after_clear(p, sim_id, source_id)
}

/// The channels after `advance_periodic`.
pub open spec fn spec_advance_periodic(s: Seq<PeriodicInstance>, key: (usize, usize, usize, u64)) -> Seq<PeriodicInstance> {
    if exists|i: int| is_first_match(s, i, key) {
        let i = choose|i: int| is_first_match(s, i, key);
        s.update(i, PeriodicInstance { next_tick: sat_add_u64(s[i].next_tick as int, s[i].interval as int), ..s[i] })
    } else {
        s
    }
}

proof fn lemma_first_match_unique(s: Seq<PeriodicInstance>, i: int, k: int, key: (usize, usize, usize, u64))
    requires
        is_first_match(s, i, key),
        is_first_match(s, k, key),
    ensures
        i == k,
{
    if i < k {
        assert(periodic_key(s[i]) != key);
    }
    if k < i {
        assert(periodic_key(s[k]) != key);
    }
}

/// Position of the first channel with this key, if any.
fn find_first(s: &Vec<PeriodicInstance>, key: (usize, usize, usize, u64)) -> (r: Option<usize>)
    ensures
        r matches Some(i) ==> is_first_match(s@, i as int, key),
        r is None ==> no_match(s@, key),
{
    let mut i: usize = 0;
    while i < s.len()
        invariant
            i <= s.len(),
            forall|j: int| 0 <= j < i ==> periodic_key(#[trigger] s@[j]) != key,
        decreases s.len() - i,
    {
        let p = s[i];
        if p.sim_id == key.0 && p.source_id == key.1 && p.target_id == key.2 && p.effect_id == key.3 {
            return Some(i);
        }
        i = i + 1;
    }
    None
}

fn sat_add(a: u64, b: u64) -> (r: u64)
    ensures
        r == sat_add_u64(a as int, b as int),
{
    a.saturating_add(b)
}

impl PeriodicStore {
    /// An empty store.
    pub fn new() -> (r: Self)
        ensures
            r@ == Seq::<PeriodicInstance>::empty(),
    {
        PeriodicStore { instances: Vec::new() }
    }
}

/// Registers (or re-registers) a periodic channel. Nothing happens for a zero
/// duration or a missing target; an existing channel with the same key gains
/// a stack and/or a refreshed end tick; otherwise a new one-stack channel is
/// added whose first tick is now (`first_instant`) or one interval away.
pub fn register_periodic(
    store: &mut PeriodicStore,
    sim_id: usize,
    tick: usize,
    target_exists: bool,
    source_id: usize,
    target_id: usize,
    effect_id: u64,
    duration: u64,
    interval: u64,
    first_instant: bool,
    can_stack: bool,
    max_stacks: usize,
    refresh: bool,
)
    ensures
        final(store)@ == spec_register_periodic(
            old(store)@,
            sim_id,
            tick,
            target_exists,
            source_id,
            target_id,
            effect_id,
            duration,
            interval,
            first_instant,
            can_stack,
            max_stacks,
            refresh,
        ),
        keys_unique(old(store)@, periodic_key_fn()) ==> keys_unique(final(store)@, periodic_key_fn()),
{
    if duration == 0 || !target_exists {
        return;
    }
    let now = tick as u64;
    let key = (sim_id, source_id, target_id, effect_id);
    let ghost s = store@;
    match find_first(&store.instances, key) {
        Some(i) => {
            let p = store.instances[i];
            let mut stacks = p.stacks;
            if can_stack {
                if max_stacks == 0 || p.stacks < max_stacks {
                    stacks = p.stacks.saturating_add(1);
                }
            }
            let end_tick = if refresh { sat_add(now, duration) } else { p.end_tick };
            let q = PeriodicInstance { stacks, end_tick, ..p };
            proof {
                assert(is_first_match(s, i as int, key));
                let c = choose|c: int| is_first_match(s, c, key);
                lemma_first_match_unique(s, i as int, c, key);
                if keys_unique(s, periodic_key_fn()) {
                    lemma_update_keys_unique(s, periodic_key_fn(), i as int, q);
                }
            }
            store.instances.set(i, q);
        },
        None => {
            let step = if interval < 1 { 1u64 } else { interval };
            let q = PeriodicInstance {
                sim_id,
                source_id,
                target_id,
                effect_id,
                end_tick: sat_add(now, duration),
                next_tick: if first_instant { now } else { sat_add(now, step) },
                interval: step,
                stacks: 1,
            };
            proof {
                if keys_unique(s, periodic_key_fn()) {
                    lemma_push_keys_unique(s, periodic_key_fn(), q);
                }
            }
            store.instances.push(q);
        },
    }
}

/// The channels after `register_delayed`.
pub open spec fn spec_register_delayed(
    s: Seq<PeriodicInstance>,
    sim_id: usize,
    tick: usize,
    target_exists: bool,
    source_id: usize,
    target_id: usize,
    effect_id: u64,
    delay: u64,
) -> Seq<PeriodicInstance> {
    spec_register_periodic(
        s,
        sim_id,
        tick,
        target_exists,
        source_id,
        target_id,
        effect_id,
        sat_add_u64(delay as int, 1),
        if delay < 1 { 1 } else { delay },
        false,
        false,
        1,
        false,
    )
}

/// Registers a one-shot trigger that fires `delay` ticks from now: a
/// channel lasting `delay + 1` ticks with interval `max(delay, 1)`.
pub fn register_delayed(
    store: &mut PeriodicStore,
    sim_id: usize,
    tick: usize,
    target_exists: bool,
    source_id: usize,
    target_id: usize,
    effect_id: u64,
    delay: u64,
)
    ensures
        final(store)@ == spec_register_delayed(old(store)@, sim_id, tick, target_exists, source_id, target_id, effect_id, delay),
        keys_unique(old(store)@, periodic_key_fn()) ==> keys_unique(final(store)@, periodic_key_fn()),
{
    let interval = if delay < 1 { 1 } else { delay };
    register_periodic(
        store,
        sim_id,
        tick,
        target_exists,
        source_id,
        target_id,
        effect_id,
        sat_add(delay, 1),
        interval,
        false,
        false,
        1,
        false,
    );
}

fn vec_contains_usize(v: &Vec<usize>, x: usize) -> (r: bool)
    ensures
        r == v@.contains(x),
{
    let mut i: usize = 0;
    while i < v.len()
        invariant
            i <= v.len(),
            forall|j: int| 0 <= j < i ==> v@[j] != x,
        decreases v.len() - i,
    {
        if v[i] == x {
            return true;
        }
        i = i + 1;
    }
    false
}

/// Prunes this simulation's channels that have ended or whose target is no
/// longer alive (`living` lists the living entity ids), then returns this
/// simulation's channels of `source_id` that are due at `tick`.
pub fn due_periodics(
    store: &mut PeriodicStore,
    sim_id: usize,
    living: &Vec<usize>,
    source_id: usize,
    tick: u64,
) -> (r: Vec<PeriodicInstance>)
    ensures
        final(store)@ == old(store)@.filter(survives_pred(sim_id, tick, living@)),
        r@ == final(store)@.filter(due_pred(sim_id, source_id, tick)),
        keys_unique(old(store)@, periodic_key_fn()) ==> keys_unique(final(store)@, periodic_key_fn()),
{
    proof {
        if keys_unique(store@, periodic_key_fn()) {
            lemma_filter_keys_unique(store@, periodic_key_fn(), survives_pred(sim_id, tick, living@));
        }
    }
    let keep = |p: &PeriodicInstance| -> (b: bool)
        ensures
            b == survives(*p, sim_id, tick, living@),
        { p.sim_id != sim_id || (p.end_tick > tick && vec_contains_usize(living, p.target_id)) };
    vec_retain(&mut store.instances, keep, Ghost(survives_pred(sim_id, tick, living@)));
    let keep = |p: &PeriodicInstance| -> (b: bool)
        ensures
            b == is_due(*p, sim_id, source_id, tick),
        { p.sim_id == sim_id && p.source_id == source_id && p.next_tick <= tick };
    vec_filter_copy(&store.instances, keep, Ghost(due_pred(sim_id, source_id, tick)))
}

/// Moves the next tick of the matching channel one interval forward
/// (saturating); nothing happens when no channel matches.
pub fn advance_periodic(store: &mut PeriodicStore, sim_id: usize, source_id: usize, target_id: usize, effect_id: u64)
    ensures
        final(store)@ == spec_advance_periodic(old(store)@, (sim_id, source_id, target_id, effect_id)),
        keys_unique(old(store)@, periodic_key_fn()) ==> keys_unique(final(store)@, periodic_key_fn()),
{
    let key = (sim_id, source_id, target_id, effect_id);
    let ghost s = store@;
    if let Some(i) = find_first(&store.instances, key) {
        let p = store.instances[i];
        let q = PeriodicInstance { next_tick: sat_add(p.next_tick, p.interval), ..p };
        proof {
            let c = choose|c: int| is_first_match(s, c, key);
            lemma_first_match_unique(s, i as int, c, key);
            if keys_unique(s, periodic_key_fn()) {
                lemma_update_keys_unique(s, periodic_key_fn(), i as int, q);
            }
        }
        store.instances.set(i, q);
    }
}

/// Drops every channel of `source_id` in this simulation.
pub fn clear_periodics_for_source(store: &mut PeriodicStore, sim_id: usize, source_id: usize)
    ensures
        final(store)@ == old(store)@.filter(clear_pred(sim_id, Some(source_id))),
        keys_unique(old(store)@, periodic_key_fn()) ==> keys_unique(final(store)@, periodic_key_fn()),
{
    proof {
        if keys_unique(store@, periodic_key_fn()) {
            lemma_filter_keys_unique(store@, periodic_key_fn(), clear_pred(sim_id, Some(source_id)));
        }
    }
    let keep = |p: &PeriodicInstance| -> (b: bool)
        ensures
            b == kept_after_clear(*p, sim_id, Some(source_id)),
        { p.sim_id != sim_id || p.source_id != source_id };
    vec_retain(&mut store.instances, keep, Ghost(clear_pred(sim_id, Some(source_id))));
}

/// Drops every channel of this simulation.
pub fn clear_periodics(store: &mut PeriodicStore, sim_id: usize)
    ensures
        final(store)@ == old(store)@.filter(clear_pred(sim_id, None)),
        keys_unique(old(store)@, periodic_key_fn()) ==> keys_unique(final(store)@, periodic_key_fn()),
{
    proof {
        if keys_unique(store@, periodic_key_fn()) {
            lemma_filter_keys_unique(store@, periodic_key_fn(), clear_pred(sim_id, None));
        }
    }
    let keep = |p: &PeriodicInstance| -> (b: bool)
        ensures
            b == kept_after_clear(*p, sim_id, None),
        { p.sim_id != sim_id };
    vec_retain(&mut store.instances, keep, Ghost(clear_pred(sim_id, None)));
}


/// The channels after advancing, in order, every channel of `due`.
pub open spec fn advance_all(s: Seq<PeriodicInstance>, due: Seq<PeriodicInstance>) -> Seq<PeriodicInstance>
    decreases due.len(),
{
    if due.len() == 0 {
        s
    } else {
        spec_advance_periodic(advance_all(s, due.drop_last()), periodic_key(due.last()))
    }
}

/// One source's turn of a match tick: prunes this simulation's ended or
/// orphaned channels (`living` lists the living entity ids), returns the
/// channels of `source_id` that are due at `tick` (each deals its damage),
/// and moves each of them one interval forward.
pub fn run_due_periodics(
    store: &mut PeriodicStore,
    sim_id: usize,
    living: &Vec<usize>,
    source_id: usize,
    tick: u64,
) -> (r: Vec<PeriodicInstance>)
    ensures
        r@ == old(store)@.filter(survives_pred(sim_id, tick, living@)).filter(due_pred(sim_id, source_id, tick)),
        final(store)@ == advance_all(old(store)@.filter(survives_pred(sim_id, tick, living@)), r@),
        keys_unique(old(store)@, periodic_key_fn()) ==> keys_unique(final(store)@, periodic_key_fn()),
{
    let due = due_periodics(store, sim_id, living, source_id, tick);
    let ghost pruned = store@;
    let mut k: usize = 0;
    assert(due@.take(0) =~= Seq::<PeriodicInstance>::empty());
    while k < due.len()
        invariant
            k <= due@.len(),
            store@ == advance_all(pruned, due@.take(k as int)),
            keys_unique(old(store)@, periodic_key_fn()) ==> keys_unique(store@, periodic_key_fn()),
        decreases due.len() - k,
    {
        let p = due[k];
        assert(due@.take(k as int + 1).drop_last() =~= due@.take(k as int));
        assert(due@.take(k as int + 1).last() == p);
        advance_periodic(store, p.sim_id, p.source_id, p.target_id, p.effect_id);
        k = k + 1;
    }
    assert(due@.take(k as int) =~= due@);
    due
}

} // verus!
