//! Buffs that persist through death: remembering applications per player,
//! capping stacks, and restoring the shortfall after a respawn.
use vstd::prelude::*;
use crate::seq_util::vec_retain;
use crate::state::{ModState, PersistedBuff, PlayerRecord, new_record, owner_of, player_data_same, ownership_same, runtime_same, visuals_same, record_of, other_records_same, sat_inc, player_for_entity};
use crate::table::lookup;
use crate::text::str_eq;
use crate::world::{BuffInfo, PlayerInfo};

verus! {

broadcast use {vstd::seq_lib::group_seq_properties, vstd::seq::group_seq_axioms};

/// What to do with the live buff on the target when applying it.
#[derive(Clone, Copy, Debug, PartialEq, Eq)]
pub enum LiveBuffAction {
    /// Stack one more copy under the cap, optionally refreshing the others.
    Stack { max_count: usize, refresh: bool },
    /// Remove the live copy and apply the buff again (timed refresh).
    Replace,
    /// Apply the buff.
    Add,
    /// A permanent buff is already there: nothing to do.
    Keep,
}

impl<B: Copy> PersistedBuff<B> {
    /// A field-by-field copy.
    pub fn duplicate(&self) -> (r: PersistedBuff<B>)
        ensures
            r == *self,
    {
        PersistedBuff {
            sim_id: self.sim_id,
            player_id: self.player_id,
            name: self.name.clone(),
            buff: self.buff,
            expires_at: self.expires_at,
        }
    }
}

/// The persisted buff belongs to the player.
pub open spec fn is_player_buff<B>(p: PersistedBuff<B>, sim_id: usize, player_id: usize) -> bool {
    p.sim_id == sim_id && p.player_id == player_id
}

/// Persisted buffs kept by pruning the player's expired applications at
/// `now`: those of other players, permanent ones, and those expiring later.
pub open spec fn unexpired_pred<B>(sim_id: usize, player_id: usize, now: usize) -> spec_fn(PersistedBuff<B>) -> bool {
    |p: PersistedBuff<B>| !is_player_buff(p, sim_id, player_id) || p.expires_at is None || p.expires_at->0 > now
}

/// The player's persisted applications of buff `name`.
pub open spec fn same_name_pred<B>(sim_id: usize, player_id: usize, name: Seq<char>) -> spec_fn(PersistedBuff<B>) -> bool {
    |p: PersistedBuff<B>| is_player_buff(p, sim_id, player_id) && p.name@ == name
}

/// The persisted buffs after pruning the player's expired applications.
pub open spec fn pruned<B>(s: Seq<PersistedBuff<B>>, sim_id: usize, player_id: usize, now: usize) -> Seq<PersistedBuff<B>> {
    s.filter(unexpired_pred::<B>(sim_id, player_id, now))
}

/// At the cap: the first `cap` applications of the name are overwritten with
/// the new buff and expiry, later ones are dropped; everything else stays.
pub open spec fn cap_rewrite<B>(
    s: Seq<PersistedBuff<B>>,
    sim_id: usize,
    player_id: usize,
    name: Seq<char>,
    cap: usize,
    buff: B,
    expires_at: Option<usize>,
) -> Seq<PersistedBuff<B>>
    decreases s.len(),
{
    if s.len() == 0 {
        s
    } else {
        let pre = cap_rewrite(s.drop_last(), sim_id, player_id, name, cap, buff, expires_at);
        let last = s.last();
        if !same_name_pred::<B>(sim_id, player_id, name)(last) {
            pre.push(last)
        } else if s.drop_last().filter(same_name_pred::<B>(sim_id, player_id, name)).len() < cap {
            pre.push(PersistedBuff { buff, expires_at, ..last })
        } else {
            pre
        }
    }
}

/// The live action for applying a buff.
pub open spec fn spec_live_action(stackable: bool, max_count: usize, refresh_stacks: bool, timed: bool, live_same_name: usize) -> LiveBuffAction {
    if stackable {
        LiveBuffAction::Stack { max_count, refresh: refresh_stacks }
    } else if live_same_name > 0 {
        if timed { LiveBuffAction::Replace } else { LiveBuffAction::Keep }
    } else {
        LiveBuffAction::Add
    }
}

/// The persisted buffs after remembering an application for the player.
pub open spec fn spec_persist_application<B>(
    s: Seq<PersistedBuff<B>>,
    sim_id: usize,
    player_id: usize,
    name: Seq<char>,
    stored_name: String,
    buff: B,
    expires_at: Option<usize>,
    cap: usize,
    now: usize,
) -> Seq<PersistedBuff<B>> {
    let kept = pruned(s, sim_id, player_id, now);
    let count = kept.filter(same_name_pred::<B>(sim_id, player_id, name)).len();
    if cap != 0 && count >= cap {
        cap_rewrite(kept, sim_id, player_id, name, cap, buff, expires_at)
    } else {
        kept.push(PersistedBuff { sim_id, player_id, name: stored_name, buff, expires_at })
    }
}

/// `a + b`, saturating at `usize::MAX`.
pub open spec fn sat_add_usize(a: int, b: int) -> usize {
    if a + b > usize::MAX { usize::MAX } else { (a + b) as usize }
}

/// `a - b`, saturating at 0.
pub open spec fn sat_sub_usize(a: int, b: int) -> usize {
    if a - b < 0 { 0 } else { (a - b) as usize }
}

fn prune_expired<B: Copy>(st: &mut ModState<B>, sim_id: usize, player_id: usize, now: usize)
    ensures
        final(st).persisted_buffs@ == pruned(old(st).persisted_buffs@, sim_id, player_id, now),
        final(st).records@ == old(st).records@,
        final(st).champion_keys@ == old(st).champion_keys@,
        final(st).counters@ == old(st).counters@,
        final(st).flags@ == old(st).flags@,
        ownership_same(*old(st), *final(st)),
        runtime_same(*old(st), *final(st)),
{
    let keep = |p: &PersistedBuff<B>| -> (b: bool)
        ensures
            b == (!is_player_buff(*p, sim_id, player_id) || p.expires_at is None || p.expires_at->0 > now),
        {
            !(p.sim_id == sim_id && p.player_id == player_id) || match p.expires_at {
                Some(e) => e > now,
                None => true,
            }
        };
    vec_retain(&mut st.persisted_buffs, keep, Ghost(unexpired_pred::<B>(sim_id, player_id, now)));
}

fn count_same_name<B>(s: &Vec<PersistedBuff<B>>, sim_id: usize, player_id: usize, name: &str) -> (r: usize)
    ensures
        r == s@.filter(same_name_pred::<B>(sim_id, player_id, name@)).len(),
{
    let mut n: usize = 0;
    let mut i: usize = 0;
    reveal(Seq::filter);
    while i < s.len()
        invariant
            i <= s@.len(),
            n == s@.take(i as int).filter(same_name_pred::<B>(sim_id, player_id, name@)).len(),
            n <= i,
        decreases s.len() - i,
    {
        assert(s@.take(i as int + 1) =~= s@.take(i as int).push(s@[i as int]));
        proof {
            s@.take(i as int).lemma_filter_push(s@[i as int], same_name_pred::<B>(sim_id, player_id, name@));
        }
        if s[i].sim_id == sim_id && s[i].player_id == player_id && str_eq(s[i].name.as_str(), name) {
            n = n + 1;
        }
        i = i + 1;
    }
    assert(s@.take(i as int) =~= s@);
    n
}

fn rewrite_at_cap<B: Copy>(s: &Vec<PersistedBuff<B>>, sim_id: usize, player_id: usize, name: &str, cap: usize, buff: B, expires_at: Option<usize>) -> (r: Vec<PersistedBuff<B>>)
    ensures
        r@ == cap_rewrite(s@, sim_id, player_id, name@, cap, buff, expires_at),
{
    let mut out: Vec<PersistedBuff<B>> = Vec::new();
    let mut kept: usize = 0;
    let mut i: usize = 0;
    let ghost pred = same_name_pred::<B>(sim_id, player_id, name@);
    reveal(Seq::filter);
    assert(s@.take(0) =~= Seq::<PersistedBuff<B>>::empty());
    while i < s.len()
        invariant
            i <= s@.len(),
            pred == same_name_pred::<B>(sim_id, player_id, name@),
            out@ == cap_rewrite(s@.take(i as int), sim_id, player_id, name@, cap, buff, expires_at),
            kept == if s@.take(i as int).filter(pred).len() < cap { s@.take(i as int).filter(pred).len() } else { cap as nat },
        decreases s.len() - i,
    {
        let ghost t = s@.take(i as int + 1);
        assert(t.drop_last() =~= s@.take(i as int));
        assert(t.last() == s@[i as int]);
        assert(t =~= s@.take(i as int).push(s@[i as int]));
        proof {
            s@.take(i as int).lemma_filter_push(s@[i as int], pred);
        }
        let e = &s[i];
        if e.sim_id == sim_id && e.player_id == player_id && str_eq(e.name.as_str(), name) {
            if kept < cap {
                out.push(PersistedBuff { sim_id: e.sim_id, player_id: e.player_id, name: e.name.clone(), buff, expires_at });
                kept = kept + 1;
            }
        } else {
            out.push(e.duplicate());
        }
        i = i + 1;
    }
    assert(s@.take(i as int) =~= s@);
    out
}

/// Applies a buff: decides the live action on the target and, when the buff
/// persists through death and the target's player is known, remembers the
/// application for that player: expired applications are pruned, then the
/// new one is appended, or at the cap (the stack limit, 1 when not
/// stackable, 0 = uncapped) the kept applications are refreshed. Returns the
/// live action and the player whose stacks must then be reconciled. A
/// persistent application whose owner cannot be found is counted as a
/// missed lookup.
pub fn add_buff<B: Copy>(
    st: &mut ModState<B>,
    players: &Vec<PlayerInfo>,
    sim_id: usize,
    now: usize,
    target_id: usize,
    target_alive: bool,
    live_same_name: usize,
    buff: B,
    name: &str,
    timed: bool,
    duration_tick: usize,
    persist_through_death: bool,
    stackable: bool,
    max_count: usize,
    refresh_stacks: bool,
) -> (r: (LiveBuffAction, Option<usize>))
    ensures
        r.0 == spec_live_action(stackable, max_count, refresh_stacks, timed, live_same_name),
        r.1 == if persist_through_death { owner_of(*old(st), players@, sim_id, target_id) } else { None },
        match r.1 {
            None => {
                &&& player_data_same(*old(st), *final(st))
                &&& ownership_same(*old(st), *final(st))
                &&& final(st).periodics@ == old(st).periodics@
                &&& final(st).aggregation_scopes@ == old(st).aggregation_scopes@
                &&& visuals_same(*old(st), *final(st))
                &&& final(st).missed_owner_lookups == if persist_through_death {
                    old(st).missed_owner_lookups.wrapping_add(1)
                } else {
                    old(st).missed_owner_lookups
                }
            },
            Some(p) => {
                let rec = record_of(*old(st), sim_id, p);
                let expires_at = if timed { Some(sat_add_usize(now as int, duration_tick as int)) } else { None };
                let cap = if stackable { max_count } else { 1usize };
                &&& lookup(final(st).records@, (sim_id, p)) == Some(PlayerRecord {
                    last_entity_id: Some(target_id),
                    was_alive: target_alive,
                    entity_missing: false,
                    persistent_capture_count: sat_inc(rec.persistent_capture_count),
                    ..rec
                })
                &&& other_records_same(*old(st), *final(st), sim_id, p)
                &&& exists|stored_name: String| stored_name@ == name@ && final(st).persisted_buffs@ == spec_persist_application(
                    old(st).persisted_buffs@, sim_id, p, name@, stored_name, buff, expires_at, cap, now)
                &&& final(st).champion_keys@ == old(st).champion_keys@
                &&& final(st).counters@ == old(st).counters@
                &&& final(st).flags@ == old(st).flags@
                &&& ownership_same(*old(st), *final(st))
                &&& runtime_same(*old(st), *final(st))
            },
        },
{
    let player = if persist_through_death { player_for_entity(st, players, sim_id, target_id) } else { None };
    if persist_through_death && player.is_none() {
        st.missed_owner_lookups = st.missed_owner_lookups.wrapping_add(1);
    }
    let action = if stackable {
        LiveBuffAction::Stack { max_count, refresh: refresh_stacks }
    } else if live_same_name > 0 {
        if timed { LiveBuffAction::Replace } else { LiveBuffAction::Keep }
    } else {
        LiveBuffAction::Add
    };
    let Some(p) = player else { return (action, None); };
    let expires_at = if timed { Some(now.saturating_add(duration_tick)) } else { None };
    let cap: usize = if stackable { max_count } else { 1 };
    let rec = match crate::table::table_get(&st.records, &(sim_id, p)) {
        Some(r) => r,
        None => new_record(),
    };
    let ghost before = st.persisted_buffs@;
    prune_expired(st, sim_id, p, now);
    let count = count_same_name(&st.persisted_buffs, sim_id, p, name);
    let stored_name = String::from_str(name);
    let ghost sn = stored_name;
    if cap != 0 && count >= cap {
        let rewritten = rewrite_at_cap(&st.persisted_buffs, sim_id, p, name, cap, buff, expires_at);
        st.persisted_buffs = rewritten;
    } else {
        st.persisted_buffs.push(PersistedBuff { sim_id, player_id: p, name: stored_name, buff, expires_at });
    }
    assert(st.persisted_buffs@ == spec_persist_application(before, sim_id, p, name@, sn, buff, expires_at, cap, now));
    crate::table::table_insert(&mut st.records, (sim_id, p), PlayerRecord {
        last_entity_id: Some(target_id),
        was_alive: target_alive,
        entity_missing: false,
        persistent_capture_count: rec.persistent_capture_count.saturating_add(1),
        ..rec
    });
    (action, Some(p))
}

/// One copy to re-apply: the stored buff and, for a timed application, its
/// remaining ticks.
pub open spec fn restore_entry<B>(p: PersistedBuff<B>, now: usize) -> (B, Option<usize>) {
    (p.buff, match p.expires_at {
        Some(e) => Some(sat_sub_usize(e as int, now as int)),
        None => None,
    })
}

/// The copies to re-apply so that `live_count` live stacks become as many
/// as the persisted applications `copies`: those past the first
/// `live_count`.
pub open spec fn restore_plan<B>(copies: Seq<PersistedBuff<B>>, live_count: usize, now: usize) -> Seq<(B, Option<usize>)> {
    if live_count >= copies.len() {
        Seq::empty()
    } else {
        Seq::new((copies.len() - live_count) as nat, |i: int| restore_entry(copies[live_count + i], now))
    }
}

/// The effect of `reconcile_buff_stacks`, `r` being the copies to re-apply.
pub open spec fn reconcile_post<B>(a: ModState<B>, b: ModState<B>, sim_id: usize, player_id: usize, name: Seq<char>, now: usize, live_count: usize, r: Seq<(B, Option<usize>)>) -> bool {
    match lookup(a.records@, (sim_id, player_id)) {
        None => r.len() == 0 && player_data_same(a, b) && ownership_same(a, b) && runtime_same(a, b),
        Some(rec) => {
            let kept = pruned(a.persisted_buffs@, sim_id, player_id, now);
            let copies = kept.filter(same_name_pred::<B>(sim_id, player_id, name));
            &&& r == restore_plan(copies, live_count, now)
            &&& b.persisted_buffs@ == kept
            &&& lookup(b.records@, (sim_id, player_id)) == Some(if r.len() > 0 {
                PlayerRecord { restored_buff_count: sat_add_usize(rec.restored_buff_count as int, r.len() as int), ..rec }
            } else {
                rec
            })
            &&& other_records_same(a, b, sim_id, player_id)
            &&& b.champion_keys@ == a.champion_keys@
            &&& b.counters@ == a.counters@
            &&& b.flags@ == a.flags@
            &&& ownership_same(a, b)
            &&& runtime_same(a, b)
        },
    }
}

/// Makes the target's live stack count for `name` match the player's
/// persisted applications: prunes the player's expired applications, then
/// returns the copies missing from the `live_count` live stacks (with their
/// remaining durations) and counts them as restored. Nothing happens for a
/// player without state.
pub fn reconcile_buff_stacks<B: Copy>(st: &mut ModState<B>, sim_id: usize, player_id: usize, name: &str, now: usize, live_count: usize) -> (r: Vec<(B, Option<usize>)>)
    ensures
        reconcile_post(*old(st), *final(st), sim_id, player_id, name@, now, live_count, r@),
{
    let Some(rec) = crate::table::table_get(&st.records, &(sim_id, player_id)) else { return Vec::new(); };
    prune_expired(st, sim_id, player_id, now);
    let ghost pred = same_name_pred::<B>(sim_id, player_id, name@);
    let mut copies: Vec<PersistedBuff<B>> = Vec::new();
    let mut i: usize = 0;
    reveal(Seq::filter);
    assert(st.persisted_buffs@.take(0) =~= Seq::<PersistedBuff<B>>::empty());
    while i < st.persisted_buffs.len()
        invariant
            i <= st.persisted_buffs@.len(),
            pred == same_name_pred::<B>(sim_id, player_id, name@),
            copies@ == st.persisted_buffs@.take(i as int).filter(pred),
        decreases st.persisted_buffs.len() - i,
    {
        assert(st.persisted_buffs@.take(i as int + 1) =~= st.persisted_buffs@.take(i as int).push(st.persisted_buffs@[i as int]));
        proof {
            st.persisted_buffs@.take(i as int).lemma_filter_push(st.persisted_buffs@[i as int], pred);
        }
        let e = &st.persisted_buffs[i];
        if e.sim_id == sim_id && e.player_id == player_id && str_eq(e.name.as_str(), name) {
            copies.push(e.duplicate());
        }
        i = i + 1;
    }
    assert(st.persisted_buffs@.take(i as int) =~= st.persisted_buffs@);
    let mut out: Vec<(B, Option<usize>)> = Vec::new();
    if live_count >= copies.len() {
        return out;
    }
    let mut j = live_count;
    while j < copies.len()
        invariant
            live_count <= j <= copies@.len(),
            out@.len() == j - live_count,
            forall|k: int| 0 <= k < out@.len() ==> out@[k] == restore_entry(copies@[live_count + k], now),
        decreases copies.len() - j,
    {
        let c = &copies[j];
        let remaining = match c.expires_at {
            Some(e) => Some(e.saturating_sub(now)),
            None => None,
        };
        out.push((c.buff, remaining));
        j = j + 1;
    }
    assert(out@ =~= restore_plan(copies@, live_count, now));
    crate::table::table_insert(&mut st.records, (sim_id, player_id), PlayerRecord {
        restored_buff_count: rec.restored_buff_count.saturating_add(out.len()),
        ..rec
    });
    out
}

/// Distinct names of the player's persisted applications, in order of
/// first appearance.
pub open spec fn distinct_names<B>(s: Seq<PersistedBuff<B>>, sim_id: usize, player_id: usize) -> Seq<Seq<char>>
    decreases s.len(),
{
    if s.len() == 0 {
        Seq::empty()
    } else {
        let pre = distinct_names(s.drop_last(), sim_id, player_id);
        let last = s.last();
        if is_player_buff(last, sim_id, player_id) && !pre.contains(last.name@) {
            pre.push(last.name@)
        } else {
            pre
        }
    }
}

/// The effect of `restore_persistent_buffs`, `names` being the names it returns.
pub open spec fn restore_post<B>(a: ModState<B>, b: ModState<B>, sim_id: usize, player_id: usize, now: usize, names: Seq<Seq<char>>) -> bool {
    match lookup(a.records@, (sim_id, player_id)) {
        None => names.len() == 0 && player_data_same(a, b) && ownership_same(a, b) && runtime_same(a, b),
        Some(rec) => {
            let kept = pruned(a.persisted_buffs@, sim_id, player_id, now);
            &&& names == distinct_names(kept, sim_id, player_id)
            &&& b.persisted_buffs@ == kept
            &&& b.records@ == a.records@
            &&& b.champion_keys@ == a.champion_keys@
            &&& b.counters@ == a.counters@
            &&& b.flags@ == a.flags@
            &&& ownership_same(a, b)
            &&& runtime_same(a, b)
        },
    }
}

/// Start of restoring a player's persisted buffs: prunes the expired
/// applications and returns the distinct buff names to reconcile, in order
/// (none for a player without state).
pub fn restore_persistent_buffs<B: Copy>(st: &mut ModState<B>, sim_id: usize, player_id: usize, now: usize) -> (r: Vec<String>)
    ensures
        restore_post(*old(st), *final(st), sim_id, player_id, now, r@.map_values(|n: String| n@)),
{
    if crate::table::table_get(&st.records, &(sim_id, player_id)).is_none() {
        return Vec::new();
    }
    prune_expired(st, sim_id, player_id, now);
    let mut names: Vec<String> = Vec::new();
    let mut i: usize = 0;
    assert(st.persisted_buffs@.take(0) =~= Seq::<PersistedBuff<B>>::empty());
    assert(names@.map_values(|n: String| n@) =~= Seq::<Seq<char>>::empty());
    while i < st.persisted_buffs.len()
        invariant
            i <= st.persisted_buffs@.len(),
            names@.map_values(|n: String| n@) == distinct_names(st.persisted_buffs@.take(i as int), sim_id, player_id),
        decreases st.persisted_buffs.len() - i,
    {
        let ghost t = st.persisted_buffs@.take(i as int + 1);
        assert(t.drop_last() =~= st.persisted_buffs@.take(i as int));
        let e = &st.persisted_buffs[i];
        if e.sim_id == sim_id && e.player_id == player_id {
            let mut found = false;
            let mut k: usize = 0;
            while k < names.len()
                invariant
                    k <= names@.len(),
                    found == exists|m: int| 0 <= m < k && names@[m]@ == e.name@,
                decreases names.len() - k,
            {
                if str_eq(names[k].as_str(), e.name.as_str()) {
                    found = true;
                }
                k = k + 1;
            }
            let ghost pre = names@.map_values(|n: String| n@);
            assert(found == pre.contains(e.name@)) by {
                if found {
                    let m = choose|m: int| 0 <= m < names@.len() && names@[m]@ == e.name@;
                    assert(pre[m] == e.name@);
                }
                if pre.contains(e.name@) {
                    let m = choose|m: int| 0 <= m < pre.len() && pre[m] == e.name@;
                    assert(names@[m]@ == e.name@);
                }
            }
            if !found {
                names.push(e.name.clone());
                assert(names@.map_values(|n: String| n@) =~= pre.push(e.name@));
            }
        }
        i = i + 1;
    }
    assert(st.persisted_buffs@.take(i as int) =~= st.persisted_buffs@);
    names
}

/// Persisted applications that are not the player's `name`.
pub open spec fn not_named_pred<B>(sim_id: usize, player_id: usize, name: Seq<char>) -> spec_fn(PersistedBuff<B>) -> bool {
    |p: PersistedBuff<B>| !(is_player_buff(p, sim_id, player_id) && p.name@ == name)
}

/// The player has no persisted application of `name` left.
pub open spec fn no_copies<B>(st: ModState<B>, sim_id: usize, player_id: usize, name: Seq<char>) -> bool {
    st.persisted_buffs@.filter(same_name_pred::<B>(sim_id, player_id, name)).len() == 0
}

/// The effect of `remove_buff`.
pub open spec fn remove_buff_post<B>(a: ModState<B>, b: ModState<B>, players: Seq<PlayerInfo>, sim_id: usize, target_id: usize, name: Seq<char>) -> bool {
    ({
        &&& b.persisted_buffs@ == match owner_of(a, players, sim_id, target_id) {
            Some(p) => a.persisted_buffs@.filter(not_named_pred::<B>(sim_id, p, name)),
            None => a.persisted_buffs@,
        }
        &&& b.records@ == a.records@
        &&& b.champion_keys@ == a.champion_keys@
        &&& b.counters@ == a.counters@
        &&& b.flags@ == a.flags@
        &&& ownership_same(a, b)
        &&& runtime_same(a, b)
    })
}

/// Forgets every persisted application of `name` for the target's player,
/// so an explicitly removed buff does not come back on respawn.
pub fn remove_buff<B: Copy>(st: &mut ModState<B>, players: &Vec<PlayerInfo>, sim_id: usize, target_id: usize, name: &str)
    ensures
        remove_buff_post(*old(st), *final(st), players@, sim_id, target_id, name@),
{
    let Some(p) = player_for_entity(st, players, sim_id, target_id) else { return; };
    let keep = |b: &PersistedBuff<B>| -> (k: bool)
        ensures
            k == !(is_player_buff(*b, sim_id, p) && b.name@ == name@),
        { !(b.sim_id == sim_id && b.player_id == p && str_eq(b.name.as_str(), name)) };
    vec_retain(&mut st.persisted_buffs, keep, Ghost(not_named_pred::<B>(sim_id, p, name@)));
}

/// The new remaining duration of a timed stack after adding `delta` ticks
/// (saturating in both directions).
pub open spec fn shifted_duration(duration: usize, delta: i32) -> usize {
    if delta >= 0 {
        sat_add_usize(duration as int, delta as int)
    } else {
        sat_sub_usize(duration as int, -(delta as int))
    }
}

/// The live buff is a timed stack of `name`.
pub open spec fn is_timed_named(b: BuffInfo, name: Seq<char>) -> bool {
    b.name@ == name && b.timed
}

/// Re-applications after shifting the timed stacks of `name`: for each
/// such stack (by position) whose new duration is positive, the position
/// and the new duration.
pub open spec fn cooldown_plan(buffs: Seq<BuffInfo>, name: Seq<char>, delta: i32) -> Seq<(usize, usize)>
    decreases buffs.len(),
{
    if buffs.len() == 0 {
        Seq::empty()
    } else {
        let pre = cooldown_plan(buffs.drop_last(), name, delta);
        let last = buffs.last();
        let next = shifted_duration(last.duration_tick, delta);
        if is_timed_named(last, name) && next > 0 {
            pre.push(((buffs.len() - 1) as usize, next))
        } else {
            pre
        }
    }
}

/// Changes the remaining lifetime of every live timed stack of `name` on
/// the target (whose buffs are `buffs`). `None` when there is no such
/// stack; otherwise every live `name` buff is to be removed and the listed
/// stacks re-applied with their new durations (those reduced to zero are
/// not re-applied).
pub fn modify_internal_cooldown(buffs: &Vec<BuffInfo>, name: &str, delta_ticks: i32) -> (r: Option<Vec<(usize, usize)>>)
    ensures
        (exists|i: int| 0 <= i < buffs@.len() && is_timed_named(#[trigger] buffs@[i], name@)) ==> (r matches Some(plan) && plan@ == cooldown_plan(buffs@, name@, delta_ticks)),
        !(exists|i: int| 0 <= i < buffs@.len() && is_timed_named(#[trigger] buffs@[i], name@)) ==> r is None,
{
    let mut plan: Vec<(usize, usize)> = Vec::new();
    let mut any = false;
    let mut i: usize = 0;
    while i < buffs.len()
        invariant
            i <= buffs@.len(),
            plan@ == cooldown_plan(buffs@.take(i as int), name@, delta_ticks),
            any == exists|k: int| 0 <= k < i && is_timed_named(#[trigger] buffs@[k], name@),
        decreases buffs.len() - i,
    {
        let ghost t = buffs@.take(i as int + 1);
        assert(t.drop_last() =~= buffs@.take(i as int));
        let b = &buffs[i];
        if b.timed && str_eq(b.name.as_str(), name) {
            any = true;
            let next = if delta_ticks >= 0 {
                b.duration_tick.saturating_add(delta_ticks as usize)
            } else {
                let magnitude: u32 = if delta_ticks == i32::MIN { 2147483648u32 } else { (-delta_ticks) as u32 };
                b.duration_tick.saturating_sub(magnitude as usize)
            };
            if next > 0 {
                plan.push((i, next));
            }
        }
        i = i + 1;
    }
    assert(buffs@.take(i as int) =~= buffs@);
    if any { Some(plan) } else { None }
}

} // verus!
