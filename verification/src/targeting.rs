//! Buff queries and markers, damage trackers, target filters and the
//! nearest-target search over a snapshot of the match.
use vstd::prelude::*;
use crate::geometry::{EntityPos, distance_sq, spec_distance_sq, integer_sqrt, is_floor_sqrt};
use crate::text::{entity_name_matches_value, has_prefix, is_trim_of, name_matches, str_eq, str_starts_with, trim_str};
use crate::world::{BuffInfo, EntityInfo, InputTarget, InputTargetKind};

verus! {

broadcast use {vstd::seq_lib::group_seq_properties, vstd::seq::group_seq_axioms};

/// A change to the buffs of an entity.
pub enum BuffOp {
    /// Remove every buff with this name.
    Remove { target_id: usize, name: String },
    /// Apply a timed marker buff with this name.
    AddTimed { target_id: usize, name: String, duration_ticks: usize },
}

/// The view of a buff change: kind (false = remove), target, name, ticks.
pub open spec fn buff_op_view(op: BuffOp) -> (bool, usize, Seq<char>, usize) {
    match op {
        BuffOp::Remove { target_id, name } => (false, target_id, name@, 0),
        BuffOp::AddTimed { target_id, name, duration_ticks } => (true, target_id, name@, duration_ticks),
    }
}

/// Buffs named `name`.
pub open spec fn named(name: Seq<char>) -> spec_fn(BuffInfo) -> bool {
    |b: BuffInfo| b.name@ == name
}

/// Buffs whose name starts with `prefix`.
pub open spec fn prefixed(prefix: Seq<char>) -> spec_fn(BuffInfo) -> bool {
    |b: BuffInfo| has_prefix(b.name@, prefix)
}

/// Number of the entity's buffs named `name` (0 without an entity).
pub open spec fn named_count(target: Option<EntityInfo>, name: Seq<char>) -> nat {
    match target {
        Some(e) => e.buffs@.filter(named(name)).len(),
        None => 0,
    }
}

fn count_buffs_where(buffs: &Vec<BuffInfo>, text: &str, by_prefix: bool) -> (r: usize)
    ensures
        r == buffs@.filter(if by_prefix { prefixed(text@) } else { named(text@) }).len(),
{
    let ghost pred = if by_prefix { prefixed(text@) } else { named(text@) };
    let mut n: usize = 0;
    let mut i: usize = 0;
    reveal(Seq::filter);
    assert(buffs@.take(0) =~= Seq::<BuffInfo>::empty());
    while i < buffs.len()
        invariant
            i <= buffs@.len(),
            pred == if by_prefix { prefixed(text@) } else { named(text@) },
            n == buffs@.take(i as int).filter(pred).len(),
            n <= i,
        decreases buffs.len() - i,
    {
        assert(buffs@.take(i as int + 1) =~= buffs@.take(i as int).push(buffs@[i as int]));
        proof {
            buffs@.take(i as int).lemma_filter_push(buffs@[i as int], pred);
        }
        let hit = if by_prefix {
            str_starts_with(buffs[i].name.as_str(), text)
        } else {
            str_eq(buffs[i].name.as_str(), text)
        };
        if hit {
            n = n + 1;
        }
        i = i + 1;
    }
    assert(buffs@.take(i as int) =~= buffs@);
    n
}

/// `i` is the first buff named `name`.
pub open spec fn is_first_named(buffs: Seq<BuffInfo>, i: int, name: Seq<char>) -> bool {
    &&& 0 <= i < buffs.len()
    &&& buffs[i].name@ == name
    &&& forall|j: int| 0 <= j < i ==> (#[trigger] buffs[j]).name@ != name
}

/// The remaining duration of the entity's first buff named `name`.
pub open spec fn spec_buff_duration(target: Option<EntityInfo>, name: Seq<char>) -> Option<usize> {
    match target {
        Some(e) => if exists|i: int| is_first_named(e.buffs@, i, name) {
            Some(e.buffs@[choose|i: int| is_first_named(e.buffs@, i, name)].duration_tick)
        } else {
            None
        },
        None => None,
    }
}

/// The remaining duration of the target's first buff named `buff_name`.
pub fn buff_duration(target: Option<&EntityInfo>, buff_name: &str) -> (r: Option<usize>)
    ensures
        r == spec_buff_duration(match target { Some(e) => Some(*e), None => None }, buff_name@),
{
    let Some(e) = target else { return None; };
    let mut i: usize = 0;
    while i < e.buffs.len()
        invariant
            i <= e.buffs@.len(),
            target == Some(e),
            forall|j: int| 0 <= j < i ==> (#[trigger] e.buffs@[j]).name@ != buff_name@,
        decreases e.buffs.len() - i,
    {
        if str_eq(e.buffs[i].name.as_str(), buff_name) {
            proof {
                assert(is_first_named(e.buffs@, i as int, buff_name@));
                let c = choose|c: int| is_first_named(e.buffs@, c, buff_name@);
                if c < i {
                    assert(e.buffs@[c].name@ != buff_name@);
                }
                if i < c {
                    assert(e.buffs@[i as int].name@ != buff_name@);
                }
            }
            return Some(e.buffs[i].duration_tick);
        }
        i = i + 1;
    }
    None
}

/// Whether the target has at least `minimum_count` buffs named `buff_name`
/// (false without a target).
pub fn has_buff_count(target: Option<&EntityInfo>, buff_name: &str, minimum_count: usize) -> (r: bool)
    ensures
        r == match target {
            Some(e) => e.buffs@.filter(named(buff_name@)).len() >= minimum_count,
            None => false,
        },
{
    match target {
        Some(e) => count_buffs_where(&e.buffs, buff_name, false) >= minimum_count,
        None => false,
    }
}

/// Whether the target has a buff named `buff_name`.
pub fn has_buff(target: Option<&EntityInfo>, buff_name: &str) -> (r: bool)
    ensures
        r == match target {
            Some(e) => e.buffs@.filter(named(buff_name@)).len() >= 1,
            None => false,
        },
{
    has_buff_count(target, buff_name, 1)
}

/// Number of the target's buffs whose name starts with `prefix`.
pub fn count_buff_prefix(target: Option<&EntityInfo>, prefix: &str) -> (r: usize)
    ensures
        r == match target {
            Some(e) => e.buffs@.filter(prefixed(prefix@)).len(),
            None => 0,
        },
{
    match target {
        Some(e) => count_buffs_where(&e.buffs, prefix, true),
        None => 0,
    }
}

// ------------------------------------------------------------------
// Damage trackers
// ------------------------------------------------------------------

/// Name prefix of a tracker of pre-mitigation damage.
pub open spec fn tracker_pre_prefix() -> Seq<char> {
    "__forge_track_pre:"@
}

/// Name prefix of a tracker of post-mitigation damage.
pub open spec fn tracker_post_prefix() -> Seq<char> {
    "__forge_track_post:"@
}

/// The prefix of trackers of one kind.
pub open spec fn tracker_prefix(pre_mitigation: bool) -> Seq<char> {
    if pre_mitigation { tracker_pre_prefix() } else { tracker_post_prefix() }
}

fn tracker_prefix_str(pre_mitigation: bool) -> (r: &'static str)
    ensures
        r@ == tracker_prefix(pre_mitigation),
{
    if pre_mitigation { "__forge_track_pre:" } else { "__forge_track_post:" }
}

/// The buff name of a damage tracker.
pub fn tracker_buff_name(tracker_name: &str, pre_mitigation: bool) -> (r: String)
    ensures
        r@ == tracker_prefix(pre_mitigation) + tracker_name@,
{
    String::from_str(tracker_prefix_str(pre_mitigation)).concat(tracker_name)
}

/// Starts (or restarts) a damage tracker on the target: its marker buff is
/// removed and applied again for `window_ticks`.
pub fn activate_damage_tracker(target_id: usize, tracker_name: &str, pre_mitigation: bool, window_ticks: usize) -> (r: Vec<BuffOp>)
    ensures
        r@.map_values(|op: BuffOp| buff_op_view(op)) == seq![
            (false, target_id, tracker_prefix(pre_mitigation) + tracker_name@, 0usize),
            (true, target_id, tracker_prefix(pre_mitigation) + tracker_name@, window_ticks),
        ],
{
    let name = tracker_buff_name(tracker_name, pre_mitigation);
    let mut ops: Vec<BuffOp> = Vec::new();
    ops.push(BuffOp::Remove { target_id, name: name.clone() });
    ops.push(BuffOp::AddTimed { target_id, name, duration_ticks: window_ticks });
    assert(ops@.map_values(|op: BuffOp| buff_op_view(op)) =~= seq![
        (false, target_id, tracker_prefix(pre_mitigation) + tracker_name@, 0usize),
        (true, target_id, tracker_prefix(pre_mitigation) + tracker_name@, window_ticks),
    ]);
    ops
}

/// The changes that add `damage` to every running tracker of one kind: for
/// each such buff in order, remove it and apply it again with its duration
/// raised by `damage` (saturating).
pub open spec fn tracker_updates(buffs: Seq<BuffInfo>, target_id: usize, prefix: Seq<char>, damage: usize) -> Seq<(bool, usize, Seq<char>, usize)>
    decreases buffs.len(),
{
    if buffs.len() == 0 {
        Seq::empty()
    } else {
        let pre = tracker_updates(buffs.drop_last(), target_id, prefix, damage);
        let b = buffs.last();
        if has_prefix(b.name@, prefix) {
            let d = if b.duration_tick + damage > usize::MAX { usize::MAX } else { (b.duration_tick + damage) as usize };
            pre.push((false, target_id, b.name@, 0usize)).push((true, target_id, b.name@, d))
        } else {
            pre
        }
    }
}

/// Adds `damage` to the running trackers of one kind on the target (the
/// tracked amount is the tracker buff's remaining duration). Nothing
/// happens for zero damage or without a target.
pub fn record_tracked_damage(target: Option<&EntityInfo>, target_id: usize, damage: usize, pre_mitigation: bool) -> (r: Vec<BuffOp>)
    ensures
        r@.map_values(|op: BuffOp| buff_op_view(op)) == if damage == 0 {
            Seq::empty()
        } else {
            match target {
                Some(e) => tracker_updates(e.buffs@, target_id, tracker_prefix(pre_mitigation), damage),
                None => Seq::empty(),
            }
        },
{
    let mut ops: Vec<BuffOp> = Vec::new();
    if damage == 0 {
        assert(ops@.map_values(|op: BuffOp| buff_op_view(op)) =~= Seq::<(bool, usize, Seq<char>, usize)>::empty());
        return ops;
    }
    let Some(e) = target else {
        assert(ops@.map_values(|op: BuffOp| buff_op_view(op)) =~= Seq::<(bool, usize, Seq<char>, usize)>::empty());
        return ops;
    };
    let prefix = tracker_prefix_str(pre_mitigation);
    let mut i: usize = 0;
    assert(e.buffs@.take(0) =~= Seq::<BuffInfo>::empty());
    assert(ops@.map_values(|op: BuffOp| buff_op_view(op)) =~= Seq::<(bool, usize, Seq<char>, usize)>::empty());
    while i < e.buffs.len()
        invariant
            i <= e.buffs@.len(),
            prefix@ == tracker_prefix(pre_mitigation),
            ops@.map_values(|op: BuffOp| buff_op_view(op)) == tracker_updates(e.buffs@.take(i as int), target_id, prefix@, damage),
        decreases e.buffs.len() - i,
    {
        assert(e.buffs@.take(i as int + 1).drop_last() =~= e.buffs@.take(i as int));
        let b = &e.buffs[i];
        if str_starts_with(b.name.as_str(), prefix) {
            let ghost before = ops@.map_values(|op: BuffOp| buff_op_view(op));
            let d = b.duration_tick.saturating_add(damage);
            ops.push(BuffOp::Remove { target_id, name: b.name.clone() });
            ops.push(BuffOp::AddTimed { target_id, name: b.name.clone(), duration_ticks: d });
            assert(ops@.map_values(|op: BuffOp| buff_op_view(op)) =~= before.push((false, target_id, b.name@, 0usize)).push((true, target_id, b.name@, d)));
        }
        i = i + 1;
    }
    assert(e.buffs@.take(i as int) =~= e.buffs@);
    ops
}

/// The tracked damage of a tracker: the larger remaining duration of its
/// pre- and post-mitigation marker buffs, 0 when neither runs.
pub fn tracked_damage(target: Option<&EntityInfo>, tracker_name: &str) -> (r: usize)
    ensures
        ({
            let t = match target { Some(e) => Some(*e), None => None };
            let a = spec_buff_duration(t, tracker_pre_prefix() + tracker_name@);
            let b = spec_buff_duration(t, tracker_post_prefix() + tracker_name@);
            r == match (a, b) {
                (Some(x), Some(y)) => if x >= y { x } else { y },
                (Some(x), None) => x,
                (None, Some(y)) => y,
                (None, None) => 0,
            }
        }),
{
    let pre_name = tracker_buff_name(tracker_name, true);
    let post_name = tracker_buff_name(tracker_name, false);
    let a = buff_duration(target, pre_name.as_str());
    let b = buff_duration(target, post_name.as_str());
    match (a, b) {
        (Some(x), Some(y)) => if x >= y { x } else { y },
        (Some(x), None) => x,
        (None, Some(y)) => y,
        (None, None) => 0,
    }
}

// ------------------------------------------------------------------
// Markers
// ------------------------------------------------------------------

/// The character of a decimal digit.
pub open spec fn digit_char(d: int) -> char {
    if d == 0 { '0' } else if d == 1 { '1' } else if d == 2 { '2' } else if d == 3 { '3' } else if d == 4 { '4' }
    else if d == 5 { '5' } else if d == 6 { '6' } else if d == 7 { '7' } else if d == 8 { '8' } else { '9' }
}

/// Decimal digits of `n`, most significant first.
pub open spec fn decimal(n: nat) -> Seq<char>
    decreases n,
{
    if n < 10 { seq![digit_char(n as int)] } else { decimal(n / 10).push(digit_char((n % 10) as int)) }
}

fn digit_str(d: usize) -> (r: &'static str)
    requires
        d < 10,
    ensures
        r@ == seq![digit_char(d as int)],
{
    proof {
        reveal_strlit("0");
        reveal_strlit("1");
        reveal_strlit("2");
        reveal_strlit("3");
        reveal_strlit("4");
        reveal_strlit("5");
        reveal_strlit("6");
        reveal_strlit("7");
        reveal_strlit("8");
        reveal_strlit("9");
    }
    let r = if d == 0 { "0" } else if d == 1 { "1" } else if d == 2 { "2" } else if d == 3 { "3" } else if d == 4 { "4" }
        else if d == 5 { "5" } else if d == 6 { "6" } else if d == 7 { "7" } else if d == 8 { "8" } else { "9" };
    assert(r@ =~= seq![digit_char(d as int)]);
    r
}

fn append_decimal(s: &mut String, n: usize)
    ensures
        final(s)@ == old(s)@ + decimal(n as nat),
    decreases n,
{
    if n >= 10 {
        append_decimal(s, n / 10);
    }
    s.append(digit_str(n % 10));
    proof {
        if n >= 10 {
            assert(old(s)@ + decimal((n / 10) as nat) + seq![digit_char((n % 10) as int)] =~= old(s)@ + decimal(n as nat));
        } else {
            assert(old(s)@ + seq![digit_char((n % 10) as int)] =~= old(s)@ + decimal(n as nat));
        }
    }
}

/// `s` cut to its first 64 characters.
pub open spec fn first_64(s: Seq<char>) -> Seq<char> {
    if s.len() > 64 { s.take(64) } else { s }
}

fn truncate_64(s: &str) -> (r: String)
    ensures
        r@ == first_64(s@),
{
    let n = s.unicode_len();
    let end = if n > 64 { 64 } else { n };
    let t = s.substring_char(0, end);
    String::from_str(t)
}

/// The `k`-th candidate name of a unique marker.
pub open spec fn marker_candidate(prefix: Seq<char>, k: nat) -> Seq<char> {
    first_64(prefix + decimal(k))
}

/// The target carries a buff named `name`.
pub open spec fn name_present(target: Option<EntityInfo>, name: Seq<char>) -> bool {
    match target {
        Some(e) => exists|i: int| 0 <= i < e.buffs@.len() && (#[trigger] e.buffs@[i]).name@ == name,
        None => false,
    }
}

fn name_present_exec(target: Option<&EntityInfo>, name: &str) -> (r: bool)
    ensures
        r == name_present(match target { Some(e) => Some(*e), None => None }, name@),
{
    let Some(e) = target else { return false; };
    let mut i: usize = 0;
    while i < e.buffs.len()
        invariant
            i <= e.buffs@.len(),
            target == Some(e),
            forall|j: int| 0 <= j < i ==> (#[trigger] e.buffs@[j]).name@ != name@,
        decreases e.buffs.len() - i,
    {
        if str_eq(e.buffs[i].name.as_str(), name) {
            assert(e.buffs@[i as int].name@ == name@);
            return true;
        }
        i = i + 1;
    }
    false
}

/// `max(d, 1)`.
pub open spec fn at_least_one(d: usize) -> usize {
    if d < 1 { 1 } else { d }
}

/// Once the prefix alone fills the 64 characters, every candidate name is
/// the prefix cut to 64 characters.
proof fn lemma_long_prefix_candidate(prefix: Seq<char>, k: nat)
    requires
        prefix.len() >= 64,
    ensures
        marker_candidate(prefix, k) == first_64(prefix),
{
    assert(decimal(k).len() >= 1);
    assert((prefix + decimal(k)).take(64) =~= prefix.take(64));
    assert(prefix.len() == 64 ==> prefix.take(64) =~= prefix);
}

/// Applies a timed marker whose name is `prefix` followed by the smallest
/// index, from the number of the target's buffs already carrying the
/// prefix, that no buff of the target uses yet (names are cut to 64
/// characters); it lasts at least one tick. The index never passes
/// `usize::MAX`: `None` exactly when every candidate up to that index is
/// taken, which the 64-character cut can bring about.
pub fn add_unique_timed_marker(target: Option<&EntityInfo>, target_id: usize, prefix: &str, duration_ticks: usize) -> (r: Option<BuffOp>)
    ensures
        ({
            let t = match target { Some(e) => Some(*e), None => None };
            let start = match target { Some(e) => e.buffs@.filter(prefixed(prefix@)).len(), None => 0 };
            &&& r matches Some(op) ==> exists|k: nat| #![trigger marker_candidate(prefix@, k)] start <= k <= usize::MAX
                && buff_op_view(op) == (true, target_id, marker_candidate(prefix@, k), at_least_one(duration_ticks))
                && !name_present(t, marker_candidate(prefix@, k))
                && forall|j: nat| start <= j < k ==> name_present(t, #[trigger] marker_candidate(prefix@, j))
            &&& r is None ==> forall|j: nat| start <= j <= usize::MAX ==> name_present(t, #[trigger] marker_candidate(prefix@, j))
        }),
{
    let start = count_buff_prefix(target, prefix);
    let duration = if duration_ticks < 1 { 1 } else { duration_ticks };
    let ghost t = match target { Some(e) => Some(*e), None => None };
    if prefix.unicode_len() >= 64 {
        // Every candidate is the same name: one look decides.
        let candidate = truncate_64(prefix);
        proof {
            assert forall|j: nat| #![trigger marker_candidate(prefix@, j)] start <= j implies marker_candidate(prefix@, j) == candidate@ by {
                lemma_long_prefix_candidate(prefix@, j);
            }
            lemma_long_prefix_candidate(prefix@, start as nat);
        }
        if !name_present_exec(target, candidate.as_str()) {
            let op = BuffOp::AddTimed { target_id, name: candidate, duration_ticks: duration };
            assert(buff_op_view(op) == (true, target_id, marker_candidate(prefix@, start as nat), at_least_one(duration_ticks)));
            return Some(op);
        }
        return None;
    }
    let mut k = start;
    loop
        invariant
            start == match target { Some(e) => e.buffs@.filter(prefixed(prefix@)).len(), None => 0 },
            t == match target { Some(e) => Some(*e), None => None },
            duration == at_least_one(duration_ticks),
            start <= k,
            forall|j: nat| start <= j < k ==> name_present(t, #[trigger] marker_candidate(prefix@, j)),
        decreases usize::MAX - k,
    {
        let mut full = String::from_str(prefix);
        append_decimal(&mut full, k);
        let candidate = truncate_64(full.as_str());
        if !name_present_exec(target, candidate.as_str()) {
            let op = BuffOp::AddTimed { target_id, name: candidate, duration_ticks: duration };
            assert(buff_op_view(op) == (true, target_id, marker_candidate(prefix@, k as nat), at_least_one(duration_ticks)));
            return Some(op);
        }
        if k == usize::MAX {
            return None;
        }
        k = k + 1;
    }
}

/// Applies a timed marker named `name` (cut to 64 characters) lasting at
/// least one tick.
pub fn add_timed_marker(target_id: usize, name: &str, duration_ticks: usize) -> (r: BuffOp)
    ensures
        buff_op_view(r) == (true, target_id, first_64(name@), at_least_one(duration_ticks)),
{
    BuffOp::AddTimed { target_id, name: truncate_64(name), duration_ticks: if duration_ticks < 1 { 1 } else { duration_ticks } }
}

// ------------------------------------------------------------------
// Target predicates
// ------------------------------------------------------------------

/// Whether the target is a living jungle camp: neither champion, minion nor
/// tower, on the neutral team 2.
pub fn is_jungle_camp(target: Option<&EntityInfo>) -> (r: bool)
    ensures
        r == match target {
            Some(e) => e.alive && !e.is_champion && !e.is_minion && !e.is_tower && e.team == 2,
            None => false,
        },
{
    match target {
        Some(e) => e.alive && !e.is_champion && !e.is_minion && !e.is_tower && e.team == 2,
        None => false,
    }
}

/// Whether the target's name is `expected` (trimmed, not empty), or
/// `expected` followed by a numeric spawn suffix.
pub fn entity_name_matches(target: Option<&EntityInfo>, expected: &str) -> (r: bool)
    ensures
        r == exists|t: Seq<char>| #![trigger is_trim_of(expected@, t)] is_trim_of(expected@, t) && t.len() > 0 && match target {
            Some(e) => match e.name {
                Some(n) => name_matches(n@, t),
                None => false,
            },
            None => false,
        },
{
    let trimmed = trim_str(expected);
    if trimmed.unicode_len() == 0 {
        proof {
            assert forall|t: Seq<char>| is_trim_of(expected@, t) implies t.len() == 0 by {
                crate::text::lemma_trim_unique(expected@, trimmed@, t);
            }
        }
        return false;
    }
    let Some(e) = target else { return false; };
    let r = match &e.name {
        Some(n) => entity_name_matches_value(n.as_str(), trimmed),
        None => false,
    };
    proof {
        assert forall|t: Seq<char>| is_trim_of(expected@, t) implies t == trimmed@ by {
            crate::text::lemma_trim_unique(expected@, trimmed@, t);
        }
    }
    r
}

/// Squared distance between two entities, `u64::MAX` when either is
/// missing.
pub fn distance_to(caster: Option<&EntityInfo>, target: Option<&EntityInfo>) -> (r: u64)
    ensures
        r == match (caster, target) {
            (Some(c), Some(t)) => spec_distance_sq(c.pos, t.pos) as u64,
            _ => u64::MAX,
        },
{
    match (caster, target) {
        (Some(c), Some(t)) => distance_sq(c.pos, t.pos),
        _ => u64::MAX,
    }
}

/// `a * b`, saturating at `usize::MAX`.
pub open spec fn sat_mul_usize(a: usize, b: usize) -> usize {
    if a * b > usize::MAX { usize::MAX } else { (a * b) as usize }
}

fn saturating_mul_usize(a: usize, b: usize) -> (r: usize)
    ensures
        r == sat_mul_usize(a, b),
{
    if a == 0 || b == 0 {
        assert(a * b == 0) by (nonlinear_arith)
            requires
                a == 0 || b == 0,
        ;
        return 0;
    }
    if a <= usize::MAX / b {
        assert(a * b <= usize::MAX) by (nonlinear_arith)
            requires
                b > 0,
                a <= usize::MAX / b,
        ;
        a * b
    } else {
        assert(a * b > usize::MAX) by (nonlinear_arith)
            requires
                b > 0,
                a > usize::MAX / b,
        ;
        usize::MAX
    }
}

/// Whether the target is alive, not a tower, and at or below
/// `threshold_percent` of its maximum hp (products saturate).
pub fn is_target_at_or_below_hp_percent(target: Option<&EntityInfo>, threshold_percent: usize) -> (r: bool)
    ensures
        r == match target {
            Some(e) => e.alive && !e.is_tower && sat_mul_usize(e.hp, 100) <= sat_mul_usize(e.max_hp, threshold_percent),
            None => false,
        },
{
    let Some(e) = target else { return false; };
    if !e.alive || e.is_tower {
        return false;
    }
    saturating_mul_usize(e.hp, 100) <= saturating_mul_usize(e.max_hp, threshold_percent)
}

/// Whether the target is under some crowd control.
pub fn is_crowd_controlled(target: Option<&EntityInfo>) -> (r: bool)
    ensures
        r == match target {
            Some(e) => e.cc_count > 0,
            None => false,
        },
{
    match target {
        Some(e) => e.cc_count > 0,
        None => false,
    }
}

/// Whether the target is a champion with a shield.
pub fn has_shield(target: Option<&EntityInfo>) -> (r: bool)
    ensures
        r == match target {
            Some(e) => e.is_champion && e.shield > 0,
            None => false,
        },
{
    match target {
        Some(e) => e.is_champion && e.shield > 0,
        None => false,
    }
}

/// `a * b`, saturating at `u64::MAX`.
pub open spec fn sat_mul_u64(a: u64, b: u64) -> u64 {
    if a * b > u64::MAX { u64::MAX } else { (a * b) as u64 }
}

fn saturating_mul_u64(a: u64, b: u64) -> (r: u64)
    ensures
        r == sat_mul_u64(a, b),
{
    if a == 0 || b == 0 {
        assert(a * b == 0) by (nonlinear_arith)
            requires
                a == 0 || b == 0,
        ;
        return 0;
    }
    if a <= u64::MAX / b {
        assert(a * b <= u64::MAX) by (nonlinear_arith)
            requires
                b > 0,
                a <= u64::MAX / b,
        ;
        a * b
    } else {
        assert(a * b > u64::MAX) by (nonlinear_arith)
            requires
                b > 0,
                a > u64::MAX / b,
        ;
        u64::MAX
    }
}

/// A living ally of the target (another entity of its team) within range.
pub open spec fn is_nearby_ally(a: EntityInfo, t: EntityInfo, target_id: usize, range: u64) -> bool {
    a.id != target_id && a.team == t.team && a.alive && spec_distance_sq(a.pos, t.pos) <= sat_mul_u64(range, range)
}

/// Whether the living target has no living ally within `range`.
pub fn is_isolated(entities: &Vec<EntityInfo>, target: Option<&EntityInfo>, target_id: usize, range: u64) -> (r: bool)
    ensures
        r == match target {
            Some(t) => t.alive && forall|i: int| 0 <= i < entities@.len() ==> !is_nearby_ally(#[trigger] entities@[i], *t, target_id, range),
            None => false,
        },
{
    let Some(t) = target else { return false; };
    if !t.alive {
        return false;
    }
    let range_sq = saturating_mul_u64(range, range);
    let mut i: usize = 0;
    while i < entities.len()
        invariant
            i <= entities@.len(),
            target == Some(t),
            range_sq == sat_mul_u64(range, range),
            forall|j: int| 0 <= j < i ==> !is_nearby_ally(#[trigger] entities@[j], *t, target_id, range),
        decreases entities.len() - i,
    {
        let a = &entities[i];
        if a.id != target_id && a.team == t.team && a.alive {
            if distance_sq(a.pos, t.pos) <= range_sq {
                assert(is_nearby_ally(entities@[i as int], *t, target_id, range));
                return false;
            }
        }
        i = i + 1;
    }
    true
}

/// `i` is the first entity with id `id`.
pub open spec fn is_first_entity(es: Seq<EntityInfo>, i: int, id: usize) -> bool {
    &&& 0 <= i < es.len()
    &&& es[i].id == id
    &&& forall|j: int| 0 <= j < i ==> (#[trigger] es[j]).id != id
}

/// The entity with id `id` (the first one).
pub open spec fn find_entity(es: Seq<EntityInfo>, id: usize) -> Option<EntityInfo> {
    if exists|i: int| is_first_entity(es, i, id) {
        Some(es[choose|i: int| is_first_entity(es, i, id)])
    } else {
        None
    }
}

/// The entity with id `id`.
pub fn get_entity(entities: &Vec<EntityInfo>, id: usize) -> (r: Option<&EntityInfo>)
    ensures
        match find_entity(entities@, id) {
            Some(e) => r matches Some(x) && *x == e,
            None => r is None,
        },
{
    let mut i: usize = 0;
    while i < entities.len()
        invariant
            i <= entities@.len(),
            forall|j: int| 0 <= j < i ==> (#[trigger] entities@[j]).id != id,
        decreases entities.len() - i,
    {
        if entities[i].id == id {
            proof {
                assert(is_first_entity(entities@, i as int, id));
                let c = choose|c: int| is_first_entity(entities@, c, id);
                if c < i {
                    assert(entities@[c].id != id);
                }
                if i < c {
                    assert(entities@[i as int].id != id);
                }
            }
            return Some(&entities[i]);
        }
        i = i + 1;
    }
    None
}

/// The position a cast input designates: the target entity's position, or
/// the input position.
pub open spec fn input_position_of(es: Seq<EntityInfo>, input: InputTarget) -> Option<EntityPos> {
    match input.kind {
        InputTargetKind::Target => match find_entity(es, input.target_id) {
            Some(e) => Some(e.pos),
            None => None,
        },
        InputTargetKind::Pos => Some((input.x, input.y)),
        _ => None,
    }
}

/// The position a cast input designates: the target entity's position, or
/// the input position.
pub fn input_position(entities: &Vec<EntityInfo>, input: InputTarget) -> (r: Option<EntityPos>)
    ensures
        r == input_position_of(entities@, input),
{
    match input.kind {
        InputTargetKind::Target => match get_entity(entities, input.target_id) {
            Some(e) => Some(e.pos),
            None => None,
        },
        InputTargetKind::Pos => Some((input.x, input.y)),
        _ => None,
    }
}

// ------------------------------------------------------------------
// Nearest targets carrying a buff
// ------------------------------------------------------------------

/// Which side of the caster a search looks at.
#[derive(Clone, Copy, Debug, PartialEq, Eq)]
pub enum FindBuffTeam {
    Enemy,
    Ally,
}

/// Where a move effect aims, mirroring the cast input kind.
#[derive(Clone, Copy, Debug, PartialEq, Eq)]
pub enum MoveTargetKind {
    Entity,
    Location,
    Direction,
}

/// `a` comes no later than `b`: by distance, then by id.
pub open spec fn pair_le(a: (u64, usize), b: (u64, usize)) -> bool {
    a.0 < b.0 || (a.0 == b.0 && a.1 <= b.1)
}

/// The pairs are in ascending order.
pub open spec fn pairs_sorted(s: Seq<(u64, usize)>) -> bool {
    forall|i: int, j: int| 0 <= i < j < s.len() ==> pair_le(#[trigger] s[i], #[trigger] s[j])
}

/// Sorts `(distance, id)` pairs in ascending order.
pub fn sort_pairs(v: &Vec<(u64, usize)>) -> (r: Vec<(u64, usize)>)
    ensures
        r@.to_multiset() == v@.to_multiset(),
        pairs_sorted(r@),
{
    broadcast use vstd::seq_lib::group_to_multiset_ensures;
    let mut out: Vec<(u64, usize)> = Vec::new();
    let mut i: usize = 0;
    assert(v@.take(0) =~= Seq::<(u64, usize)>::empty());
    while i < v.len()
        invariant
            i <= v@.len(),
            out@.to_multiset() == v@.take(i as int).to_multiset(),
            pairs_sorted(out@),
        decreases v.len() - i,
    {
        let x = v[i];
        let mut pos: usize = 0;
        while pos < out.len() && (out[pos].0 < x.0 || (out[pos].0 == x.0 && out[pos].1 < x.1))
            invariant
                pos <= out@.len(),
                forall|m: int| 0 <= m < pos ==> pair_le(#[trigger] out@[m], x) && out@[m] != x,
            decreases out.len() - pos,
        {
            pos = pos + 1;
        }
        let ghost before = out@;
        out.insert(pos, x);
        proof {
            assert(v@.take(i as int + 1) =~= v@.take(i as int).push(x));
            assert forall|a: int, b: int| 0 <= a < b < out@.len() implies pair_le(#[trigger] out@[a], #[trigger] out@[b]) by {
                if a < pos && b < pos {
                    assert(out@[a] == before[a] && out@[b] == before[b]);
                } else if a < pos && b == pos {
                    assert(out@[a] == before[a]);
                } else if a < pos && b > pos {
                    assert(out@[a] == before[a] && out@[b] == before[b - 1]);
                } else if a == pos {
                    assert(out@[b] == before[b - 1]);
                    if (pos as int) < before.len() {
                        assert(pair_le(before[pos as int], before[b - 1]));
                    }
                } else {
                    assert(out@[a] == before[a - 1] && out@[b] == before[b - 1]);
                }
            }
        }
        i = i + 1;
    }
    assert(v@.take(i as int) =~= v@);
    out
}

/// The entity counts as being on the searched side of the caster.
pub open spec fn on_side(e: EntityInfo, caster_team: usize, team: FindBuffTeam) -> bool {
    match team {
        FindBuffTeam::Enemy => e.team != caster_team,
        FindBuffTeam::Ally => e.team == caster_team,
    }
}

/// The search candidates among the first entities of `es`: living,
/// targetable entities on the searched side whose entity (looked up by id
/// in `all`) carries the buff, with their squared distance to the caster.
pub open spec fn buff_candidates(es: Seq<EntityInfo>, all: Seq<EntityInfo>, caster: EntityInfo, buff_name: Seq<char>, team: FindBuffTeam) -> Seq<(u64, usize)>
    decreases es.len(),
{
    if es.len() == 0 {
        Seq::empty()
    } else {
        let pre = buff_candidates(es.drop_last(), all, caster, buff_name, team);
        let e = es.last();
        if e.alive && e.targetable && on_side(e, caster.team, team) && named_count(find_entity(all, e.id), buff_name) >= 1 {
            pre.push((spec_distance_sq(caster.pos, e.pos) as u64, e.id))
        } else {
            pre
        }
    }
}

/// Up to `max_targets` ids of living, targetable entities on the searched
/// side of the caster that carry `buff_name`, nearest first (ties by id).
/// Empty when `max_targets` is zero or the caster is missing.
pub fn find_nearest_with_buff(entities: &Vec<EntityInfo>, caster_id: usize, buff_name: &str, team: FindBuffTeam, max_targets: usize) -> (r: Vec<usize>)
    ensures
        max_targets == 0 ==> r@.len() == 0,
        max_targets > 0 ==> match find_entity(entities@, caster_id) {
            None => r@.len() == 0,
            Some(caster) => exists|sorted: Seq<(u64, usize)>| #![trigger pairs_sorted(sorted)] {
                let cands = buff_candidates(entities@, entities@, caster, buff_name@, team);
                &&& sorted.to_multiset() == cands.to_multiset()
                &&& pairs_sorted(sorted)
                &&& r@ == sorted.take(if max_targets < sorted.len() { max_targets as int } else { sorted.len() as int }).map_values(|p: (u64, usize)| p.1)
            },
        },
{
    let mut result: Vec<usize> = Vec::new();
    if max_targets == 0 {
        return result;
    }
    let Some(caster) = get_entity(entities, caster_id) else { return result; };
    let mut matches: Vec<(u64, usize)> = Vec::new();
    let mut i: usize = 0;
    assert(entities@.take(0) =~= Seq::<EntityInfo>::empty());
    while i < entities.len()
        invariant
            i <= entities@.len(),
            find_entity(entities@, caster_id) == Some(*caster),
            matches@ == buff_candidates(entities@.take(i as int), entities@, *caster, buff_name@, team),
        decreases entities.len() - i,
    {
        assert(entities@.take(i as int + 1).drop_last() =~= entities@.take(i as int));
        let e = &entities[i];
        if e.alive && e.targetable {
            let same_team = e.team == caster.team;
            let side = match team {
                FindBuffTeam::Enemy => !same_team,
                FindBuffTeam::Ally => same_team,
            };
            if side && has_buff(get_entity(entities, e.id), buff_name) {
                matches.push((distance_sq(caster.pos, e.pos), e.id));
            }
        }
        i = i + 1;
    }
    assert(entities@.take(i as int) =~= entities@);
    let sorted = sort_pairs(&matches);
    assert(pairs_sorted(sorted@));
    let take = if max_targets < sorted.len() { max_targets } else { sorted.len() };
    let mut k: usize = 0;
    while k < take
        invariant
            k <= take <= sorted@.len(),
            result@ == sorted@.take(k as int).map_values(|p: (u64, usize)| p.1),
        decreases take - k,
    {
        result.push(sorted[k].1);
        assert(sorted@.take(k as int + 1).map_values(|p: (u64, usize)| p.1) =~= sorted@.take(k as int).map_values(|p: (u64, usize)| p.1).push(sorted@[k as int].1));
        k = k + 1;
    }
    result
}


// ------------------------------------------------------------------
// Projectile launch points
// ------------------------------------------------------------------

/// `|a - b|`.
pub open spec fn abs_diff_u64(a: u64, b: u64) -> u64 {
    if a >= b { (a - b) as u64 } else { (b - a) as u64 }
}

/// Squared distance between two positions, each product and the sum
/// saturating at `u64::MAX`.
pub open spec fn saturating_dist_sq(a: EntityPos, b: EntityPos) -> u64 {
    let dx = abs_diff_u64(b.0, a.0);
    let dy = abs_diff_u64(b.1, a.1);
    let s = sat_mul_u64(dx, dx) + sat_mul_u64(dy, dy);
    if s > u64::MAX { u64::MAX } else { s as u64 }
}

fn saturating_square(d: u64) -> (r: u64)
    ensures
        r == sat_mul_u64(d, d),
{
    match d.checked_mul(d) {
        Some(v) => v,
        None => u64::MAX,
    }
}

/// Length of the arm a rotated cast is measured with: the floor of the
/// square root of the (saturating) squared distance from the caster to the
/// direction reference.
pub fn rotation_distance(caster_pos: EntityPos, direction_pos: EntityPos) -> (r: u64)
    ensures
        is_floor_sqrt(saturating_dist_sq(caster_pos, direction_pos) as int, r as int),
{
    let dx = if direction_pos.0 >= caster_pos.0 { direction_pos.0 - caster_pos.0 } else { caster_pos.0 - direction_pos.0 };
    let dy = if direction_pos.1 >= caster_pos.1 { direction_pos.1 - caster_pos.1 } else { caster_pos.1 - direction_pos.1 };
    integer_sqrt(saturating_square(dx).saturating_add(saturating_square(dy)))
}

/// The point a rotated cast turns around: the cast input's position, else
/// the target's position, else the caster's.
pub fn rotation_reference(entities: &Vec<EntityInfo>, input: InputTarget, target_id: usize, caster_pos: EntityPos) -> (r: EntityPos)
    ensures
        r == match input_position_of(entities@, input) {
            Some(p) => p,
            None => match find_entity(entities@, target_id) {
                Some(e) => e.pos,
                None => caster_pos,
            },
        },
{
    match input_position(entities, input) {
        Some(p) => p,
        None => match get_entity(entities, target_id) {
            Some(e) => e.pos,
            None => caster_pos,
        },
    }
}

/// Launch and aim points of a projectile: the caster's position (the origin
/// when the caster is gone), the target's position (the caster's when the
/// target is gone) replaced by the rotated endpoint when there is one; the
/// projectile starts on the caster or on the aim point.
pub fn projectile_launch_points(
    entities: &Vec<EntityInfo>,
    caster_id: usize,
    target_id: usize,
    on_caster: bool,
    rotated: Option<EntityPos>,
) -> (r: (EntityPos, EntityPos))
    ensures
        ({
            let caster_pos = match find_entity(entities@, caster_id) {
                Some(e) => e.pos,
                None => (0u64, 0u64),
            };
            let aim = match rotated {
                Some(p) => p,
                None => match find_entity(entities@, target_id) {
                    Some(e) => e.pos,
                    None => caster_pos,
                },
            };
            r == (if on_caster { caster_pos } else { aim }, aim)
        }),
{
    let caster_pos = match get_entity(entities, caster_id) {
        Some(e) => e.pos,
        None => (0, 0),
    };
    let aim = match rotated {
        Some(p) => p,
        None => match get_entity(entities, target_id) {
            Some(e) => e.pos,
            None => caster_pos,
        },
    };
    (if on_caster { caster_pos } else { aim }, aim)
}

} // verus!
