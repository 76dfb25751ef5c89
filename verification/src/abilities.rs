//! Champion kits: Paragon's stats, damage, channel targets and passive,
//! Saitama's combo-scaled punches and Naruto's clone formations.
use vstd::prelude::*;
use crate::geometry::EntityPos;
use crate::world::{EntityInfo, Stat};

verus! {

broadcast use {vstd::seq_lib::group_seq_properties, vstd::seq::group_seq_axioms};

// ------------------------------------------------------------------
// Shared damage arithmetic
// ------------------------------------------------------------------

/// `a / d` rounded toward zero, as integer division does.
pub open spec fn trunc_div(a: int, d: int) -> int {
    if a >= 0 { a / d } else { -((-a) / d) }
}

/// `v` fits in an `i64`.
pub open spec fn in_i64(v: int) -> bool {
    i64::MIN <= v <= i64::MAX
}

/// Damage of `ratio` percent of `attack` (the attack read as an `i64`),
/// rounded toward zero and never negative.
pub open spec fn spec_percent_damage(attack: usize, ratio: i64) -> usize {
    let p = trunc_div((attack as i64) as int * ratio as int, 100);
    if p < 0 { 0 } else { p as usize }
}

fn div_toward_zero(a: i64, d: i64) -> (r: i64)
    requires
        d > 0,
        a > i64::MIN,
    ensures
        r == trunc_div(a as int, d as int),
{
    if a >= 0 {
        ((a as u64) / (d as u64)) as i64
    } else {
        let m = (-a) as u64;
        -(((m / (d as u64)) as i64))
    }
}

/// `ratio` percent of `attack`, rounded toward zero, at least zero.
pub fn percent_damage(attack: usize, ratio: i64) -> (r: usize)
    requires
        in_i64((attack as i64) as int * ratio as int),
    ensures
        r == spec_percent_damage(attack, ratio),
{
    let p = (attack as i64) * ratio;
    let q = if p == i64::MIN { -92233720368547758i64 } else { div_toward_zero(p, 100) };
    proof {
        if p == i64::MIN {
            assert(trunc_div(i64::MIN as int, 100) == -92233720368547758int);
        }
    }
    if q < 0 { 0 } else { q as usize }
}

// ------------------------------------------------------------------
// Paragon
// ------------------------------------------------------------------

/// Paragon's base statistics: the tankiest champion of the pack.
pub fn paragon_stat() -> (r: Stat)
    ensures
        r == (Stat { attack: 90, magic_power: 0, hp: 1300, defence: 35, magic_resistance: 30, move_speed: 1000, hp_regen: 2, stack: 0, crit_chance: 0 }),
{
    Stat { attack: 90, magic_power: 0, hp: 1300, defence: 35, magic_resistance: 30, move_speed: 1000, hp_regen: 2, stack: 0, crit_chance: 0 }
}

/// Paragon's statistics gained per level.
pub fn paragon_growth() -> (r: Stat)
    ensures
        r == (Stat { attack: 18, magic_power: 0, hp: 130, defence: 6, magic_resistance: 5, move_speed: 5, hp_regen: 1, stack: 0, crit_chance: 0 }),
{
    Stat { attack: 18, magic_power: 0, hp: 130, defence: 6, magic_resistance: 5, move_speed: 5, hp_regen: 1, stack: 0, crit_chance: 0 }
}

/// Wrathgrasp's hit: 140% of the caster's attack.
pub fn wrathgrasp_damage(attack: usize) -> (r: usize)
    requires
        in_i64((attack as i64) as int * 140),
    ensures
        r == spec_percent_damage(attack, 140),
{
    percent_damage(attack, 140)
}

/// Shatter Chain's hit: 90% of the caster's attack.
pub fn shatter_chain_damage(attack: usize) -> (r: usize)
    requires
        in_i64((attack as i64) as int * 90),
    ensures
        r == spec_percent_damage(attack, 90),
{
    percent_damage(attack, 90)
}

/// The damage an ability is expected to deal: `percent` of the attack,
/// rounded down.
pub fn expected_percent_damage(attack: usize, percent: usize) -> (r: usize)
    requires
        attack * percent <= usize::MAX,
    ensures
        r == attack * percent / 100,
{
    attack * percent / 100
}

/// Squared distance between two positions on signed 64-bit coordinates,
/// as the radius checks compute it.
pub open spec fn signed_dist_sq(a: EntityPos, b: EntityPos) -> int {
    let dx = (a.0 as i64) as int - (b.0 as i64) as int;
    let dy = (a.1 as i64) as int - (b.1 as i64) as int;
    dx * dx + dy * dy
}

/// The radius check between two positions does not overflow.
pub open spec fn radius_arith_fits(a: EntityPos, b: EntityPos) -> bool {
    let dx = (a.0 as i64) as int - (b.0 as i64) as int;
    let dy = (a.1 as i64) as int - (b.1 as i64) as int;
    in_i64(dx) && in_i64(dy) && in_i64(dx * dx) && in_i64(dy * dy) && in_i64(dx * dx + dy * dy)
}

/// A living entity of another team than `team`.
pub open spec fn is_living_enemy(e: EntityInfo, team: usize) -> bool {
    e.alive && e.team != team
}

/// Every radius check against living enemies of `team` is free of overflow.
pub open spec fn enemy_checks_fit(es: Seq<EntityInfo>, team: usize, center: EntityPos) -> bool {
    forall|i: int| 0 <= i < es.len() && is_living_enemy(#[trigger] es[i], team) ==> radius_arith_fits(es[i].pos, center)
}

fn within_radius(p: EntityPos, center: EntityPos, radius_sq: u64) -> (r: bool)
    requires
        radius_arith_fits(p, center),
    ensures
        r == (signed_dist_sq(p, center) <= radius_sq),
{
    let dx = p.0 as i64 - center.0 as i64;
    let dy = p.1 as i64 - center.1 as i64;
    assert(dx * dx >= 0 && dy * dy >= 0) by (nonlinear_arith);
    (dx * dx + dy * dy) as u64 <= radius_sq
}

/// Ids of the living enemies of `team` within the radius, in order.
pub open spec fn enemies_within(es: Seq<EntityInfo>, team: usize, center: EntityPos, radius_sq: u64) -> Seq<usize>
    decreases es.len(),
{
    if es.len() == 0 {
        Seq::empty()
    } else {
        let pre = enemies_within(es.drop_last(), team, center, radius_sq);
        let e = es.last();
        if is_living_enemy(e, team) && signed_dist_sq(e.pos, center) <= radius_sq { pre.push(e.id) } else { pre }
    }
}

/// Ids of the living enemies of `team` whose squared distance to `center`
/// is at most `radius_sq`, in entity order.
pub fn enemies_in_radius(entities: &Vec<EntityInfo>, team: usize, center: EntityPos, radius_sq: u64) -> (r: Vec<usize>)
    requires
        enemy_checks_fit(entities@, team, center),
    ensures
        r@ == enemies_within(entities@, team, center, radius_sq),
{
    let mut out: Vec<usize> = Vec::new();
    let mut i: usize = 0;
    assert(entities@.take(0) =~= Seq::<EntityInfo>::empty());
    while i < entities.len()
        invariant
            i <= entities@.len(),
            enemy_checks_fit(entities@, team, center),
            out@ == enemies_within(entities@.take(i as int), team, center, radius_sq),
        decreases entities.len() - i,
    {
        assert(entities@.take(i as int + 1).drop_last() =~= entities@.take(i as int));
        let e = &entities[i];
        if e.alive && e.team != team {
            assert(is_living_enemy(entities@[i as int], team));
            if within_radius(e.pos, center, radius_sq) {
                out.push(e.id);
            }
        }
        i = i + 1;
    }
    assert(entities@.take(i as int) =~= entities@);
    out
}

/// Squared radius of Godless's channel.
pub const GODLESS_RADIUS_SQ: u64 = 81000000;

/// The periodic damage Godless deals per due tick of its channel.
pub const GODLESS_TICK_DAMAGE: usize = 40;

/// The enemies Godless channels onto: living enemies of the caster within
/// its radius. None without a caster.
pub fn godless_targets(entities: &Vec<EntityInfo>, caster: Option<&EntityInfo>) -> (r: Vec<usize>)
    requires
        caster matches Some(c) ==> enemy_checks_fit(entities@, c.team, c.pos),
    ensures
        r@ == match caster {
            Some(c) => enemies_within(entities@, c.team, c.pos, GODLESS_RADIUS_SQ),
            None => Seq::empty(),
        },
{
    match caster {
        Some(c) => enemies_in_radius(entities, c.team, c.pos, GODLESS_RADIUS_SQ),
        None => Vec::new(),
    }
}

/// Squared radius within which Paragon's passive counts an enemy as near.
pub const ASCENSION_RANGE_SQ: u64 = 225000000;

/// Stack cap of Paragon's ascension buff.
pub const MAX_ASCENSION_STACKS: usize = 30;

/// Ascension stacks granted by a takedown.
pub const ASCENSION_STACKS_PER_KILL: usize = 5;

/// Paragon's passive: a tick counter throttling the proximity check to
/// once per 60 updates.
#[derive(Clone, Copy, Debug)]
pub struct ParagonPassive {
    tick_accumulator: u32,
}

impl ParagonPassive {
    /// The counter always stays below 60.
    #[verifier::type_invariant]
    spec fn counts_below_sixty(self) -> bool {
        self.tick_accumulator < 60
    }

    /// Updates counted since the last proximity check.
    pub closed spec fn ticks(self) -> u32 {
        self.tick_accumulator
    }

    /// A passive that has not counted any update yet.
    pub fn new() -> (r: Self)
        ensures
            r.ticks() == 0,
    {
        ParagonPassive { tick_accumulator: 0 }
    }

    /// Updates counted since the last proximity check (always below 60).
    pub fn tick_accumulator(&self) -> (r: u32)
        ensures
            r == self.ticks(),
            r < 60,
    {
        proof {
            use_type_invariant(self);
        }
        self.tick_accumulator
    }

    /// Counts one update; every 60th update the counter restarts and true
    /// is returned (time to check for nearby enemies).
    pub fn on_update_tick(&mut self) -> (r: bool)
        ensures
            r == (old(self).ticks() + 1 >= 60),
            final(self).ticks() == if r { 0 } else { (old(self).ticks() + 1) as u32 },
            final(self).ticks() < 60,
    {
        proof {
            use_type_invariant(&*self);
        }
        let next = self.tick_accumulator + 1;
        if next < 60 {
            self.tick_accumulator = next;
            false
        } else {
            self.tick_accumulator = 0;
            true
        }
    }
}

/// `e` is a living enemy of the caster within the ascension range.
pub open spec fn is_near_enemy(e: EntityInfo, caster: EntityInfo) -> bool {
    is_living_enemy(e, caster.team) && signed_dist_sq(e.pos, caster.pos) <= ASCENSION_RANGE_SQ
}

/// The proximity scan, which stops at the first near enemy, is free of
/// overflow: every living enemy it reaches passes the radius check.
pub open spec fn near_scan_fits(es: Seq<EntityInfo>, caster: EntityInfo) -> bool {
    forall|i: int|
        0 <= i < es.len() && is_living_enemy(#[trigger] es[i], caster.team)
            && (forall|j: int| 0 <= j < i ==> !is_near_enemy(#[trigger] es[j], caster))
            ==> radius_arith_fits(es[i].pos, caster.pos)
}

/// Whether any living enemy of the caster is within the ascension range.
pub fn any_enemy_near(entities: &Vec<EntityInfo>, caster: &EntityInfo) -> (r: bool)
    requires
        near_scan_fits(entities@, *caster),
    ensures
        r == exists|i: int| 0 <= i < entities@.len() && is_near_enemy(#[trigger] entities@[i], *caster),
{
    let mut i: usize = 0;
    while i < entities.len()
        invariant
            i <= entities@.len(),
            near_scan_fits(entities@, *caster),
            forall|j: int| 0 <= j < i ==> !is_near_enemy(#[trigger] entities@[j], *caster),
        decreases entities.len() - i,
    {
        let e = &entities[i];
        if e.alive && e.team != caster.team {
            assert(is_living_enemy(entities@[i as int], caster.team));
            if within_radius(e.pos, caster.pos, ASCENSION_RANGE_SQ) {
                assert(is_near_enemy(entities@[i as int], *caster));
                return true;
            }
        }
        i = i + 1;
    }
    false
}

/// Whether the proximity scan of `any_enemy_near` is free of overflow, so
/// that it may run.
pub fn near_scan_fits_for(entities: &Vec<EntityInfo>, caster: &EntityInfo) -> (r: bool)
    ensures
        r == near_scan_fits(entities@, *caster),
{
    let mut i: usize = 0;
    while i < entities.len()
        invariant
            i <= entities@.len(),
            forall|j: int| 0 <= j < i ==> !is_near_enemy(#[trigger] entities@[j], *caster),
            forall|j: int| 0 <= j < i && is_living_enemy(#[trigger] entities@[j], caster.team) ==> radius_arith_fits(entities@[j].pos, caster.pos),
        decreases entities.len() - i,
    {
        let e = &entities[i];
        if e.alive && e.team != caster.team {
            assert(is_living_enemy(entities@[i as int], caster.team));
            if !radius_check_fits(e.pos, caster.pos) {
                return false;
            }
            if within_radius(e.pos, caster.pos, ASCENSION_RANGE_SQ) {
                assert(is_near_enemy(entities@[i as int], *caster));
                assert forall|k: int|
                    0 <= k < entities@.len() && is_living_enemy(#[trigger] entities@[k], caster.team)
                        && (forall|j: int| 0 <= j < k ==> !is_near_enemy(#[trigger] entities@[j], *caster))
                        implies radius_arith_fits(entities@[k].pos, caster.pos) by {
                    if k > i {
                        assert(!is_near_enemy(entities@[i as int], *caster));
                    }
                }
                return true;
            }
        }
        i = i + 1;
    }
    true
}

// ------------------------------------------------------------------
// Saitama
// ------------------------------------------------------------------

/// Saitama's combo tier: the combo counter, capped at 20.
pub open spec fn combo_tier(combo: i64) -> i64 {
    if combo < 20 { combo } else { 20 }
}

/// Damage per hit of a normal-mode flurry: the combo-scaled ratio
/// (`base_ratio` plus 15 per tier) of the attack split over the hits,
/// rounded toward zero and at least 1.
pub open spec fn spec_flurry_damage(attack: usize, combo: i64, hits: u32, base_ratio: i64) -> usize {
    let ratio = base_ratio + combo_tier(combo) * 15;
    let per = trunc_div(trunc_div((attack as i64) as int * ratio, 100), hits as int);
    if per < 1 { 1 } else { per as usize }
}

/// The flurry arithmetic does not overflow.
pub open spec fn flurry_fits(attack: usize, combo: i64, base_ratio: i64) -> bool {
    let ratio = base_ratio + combo_tier(combo) * 15;
    in_i64(combo_tier(combo) * 15) && in_i64(ratio) && in_i64((attack as i64) as int * ratio)
}

/// Damage per hit of one of Saitama's normal-mode flurries.
pub fn flurry_damage(attack: usize, combo: i64, hits: u32, base_ratio: i64) -> (r: usize)
    requires
        hits > 0,
        flurry_fits(attack, combo, base_ratio),
    ensures
        r == spec_flurry_damage(attack, combo, hits, base_ratio),
{
    let tier = if combo < 20 { combo } else { 20 };
    let ratio = base_ratio + tier * 15;
    let p = (attack as i64) * ratio;
    let q = if p == i64::MIN { -92233720368547758i64 } else { div_toward_zero(p, 100) };
    proof {
        if p == i64::MIN {
            assert(trunc_div(i64::MIN as int, 100) == -92233720368547758int);
        }
    }
    assert(q > i64::MIN) by (nonlinear_arith)
        requires
            q == trunc_div(p as int, 100),
            in_i64(p as int),
    {
        if p >= 0 {
        } else {
            assert((-p) / 100 <= -p);
        }
    }
    let per = div_toward_zero(q, hits as i64);
    if per < 1 { 1 } else { per as usize }
}

/// The ratio of a scaled punch does not overflow.
pub open spec fn scaled_fits(attack: usize, base: int, per_tier: int, combo: i64) -> bool {
    let ratio = base + combo_tier(combo) * per_tier;
    in_i64(combo_tier(combo) * per_tier) && in_i64(ratio) && in_i64((attack as i64) as int * ratio)
}

/// Serious-mode punch: `base_ratio` + 100 per tier + 800 percent of the
/// attack.
pub fn serious_punch_damage(attack: usize, combo: i64, base_ratio: i64) -> (r: usize)
    requires
        in_i64(base_ratio + combo_tier(combo) * 100),
        scaled_fits(attack, base_ratio + 800, 100, combo),
    ensures
        r == spec_percent_damage(attack, (base_ratio + combo_tier(combo) * 100 + 800) as i64),
{
    let tier = if combo < 20 { combo } else { 20 };
    let ratio = base_ratio + tier * 100 + 800;
    percent_damage(attack, ratio)
}

/// Table-flip hit: 150 + 20 per tier percent of the attack.
pub fn table_flip_damage(attack: usize, combo: i64) -> (r: usize)
    requires
        scaled_fits(attack, 150, 20, combo),
    ensures
        r == spec_percent_damage(attack, (150 + combo_tier(combo) * 20) as i64),
{
    let tier = if combo < 20 { combo } else { 20 };
    percent_damage(attack, 150 + tier * 20)
}

/// Death Punch: 600 + 60 per tier percent of the attack.
pub fn death_punch_damage(attack: usize, combo: i64) -> (r: usize)
    requires
        scaled_fits(attack, 600, 60, combo),
    ensures
        r == spec_percent_damage(attack, (600 + combo_tier(combo) * 60) as i64),
{
    let tier = if combo < 20 { combo } else { 20 };
    percent_damage(attack, 600 + tier * 60)
}

/// What Saitama's ultimate does.
#[derive(Clone, Copy, Debug, PartialEq, Eq)]
pub enum SeriousModeCast {
    /// Already serious: Death Punch, ending Serious Mode.
    DeathPunch,
    /// Enter Serious Mode (a timed buff, not refreshed by recasting).
    Activate,
}

/// The ultimate punches when Serious Mode is on and activates it otherwise.
pub fn serious_mode_cast(is_serious: bool) -> (r: SeriousModeCast)
    ensures
        r == if is_serious { SeriousModeCast::DeathPunch } else { SeriousModeCast::Activate },
{
    if is_serious { SeriousModeCast::DeathPunch } else { SeriousModeCast::Activate }
}

// ------------------------------------------------------------------
// Naruto
// ------------------------------------------------------------------

/// How many shadow clones a Naruto ability spawns.
#[derive(Clone, Copy, Debug, PartialEq, Eq)]
pub enum CloneFormation {
    One,
    Two,
    Swarm,
}

/// `a - b`, saturating at 0.
pub open spec fn sat_sub_u64(a: u64, b: u64) -> u64 {
    if a >= b { (a - b) as u64 } else { 0 }
}

/// Spawn points of a formation around the caster at `(x, y)`.
pub open spec fn spec_clone_positions(formation: CloneFormation, x: u64, y: u64) -> Seq<EntityPos> {
    match formation {
        CloneFormation::One => seq![((x + 2000) as u64, y)],
        CloneFormation::Two => seq![((x + 2000) as u64, (y + 1500) as u64), ((x + 2000) as u64, sat_sub_u64(y, 1500))],
        CloneFormation::Swarm => seq![
            ((x + 2500) as u64, (y + 1500) as u64),
            ((x + 2500) as u64, sat_sub_u64(y, 1500)),
            (sat_sub_u64(x, 2000), (y + 2000) as u64),
            (sat_sub_u64(x, 2000), sat_sub_u64(y, 2000)),
        ],
    }
}

/// The offsets of a formation do not overflow.
pub open spec fn clone_positions_fit(formation: CloneFormation, x: u64, y: u64) -> bool {
    match formation {
        CloneFormation::One => x + 2000 <= u64::MAX,
        CloneFormation::Two => x + 2000 <= u64::MAX && y + 1500 <= u64::MAX,
        CloneFormation::Swarm => x + 2500 <= u64::MAX && y + 2000 <= u64::MAX,
    }
}

/// Where the clones of a formation spawn around the caster.
pub fn clone_positions(formation: CloneFormation, caster_pos: EntityPos) -> (r: Vec<EntityPos>)
    requires
        clone_positions_fit(formation, caster_pos.0, caster_pos.1),
    ensures
        r@ == spec_clone_positions(formation, caster_pos.0, caster_pos.1),
{
    let (x, y) = caster_pos;
    let mut v: Vec<EntityPos> = Vec::new();
    match formation {
        CloneFormation::One => {
            v.push((x + 2000, y));
        },
        CloneFormation::Two => {
            v.push((x + 2000, y + 1500));
            v.push((x + 2000, y.saturating_sub(1500)));
        },
        CloneFormation::Swarm => {
            v.push((x + 2500, y + 1500));
            v.push((x + 2500, y.saturating_sub(1500)));
            v.push((x.saturating_sub(2000), y + 2000));
            v.push((x.saturating_sub(2000), y.saturating_sub(2000)));
        },
    }
    assert(v@ =~= spec_clone_positions(formation, x, y));
    v
}


fn radius_check_fits(a: EntityPos, b: EntityPos) -> (r: bool)
    ensures
        r == radius_arith_fits(a, b),
{
    let Some(dx) = (a.0 as i64).checked_sub(b.0 as i64) else { return false; };
    let Some(dy) = (a.1 as i64).checked_sub(b.1 as i64) else { return false; };
    let Some(xx) = dx.checked_mul(dx) else { return false; };
    let Some(yy) = dy.checked_mul(dy) else { return false; };
    xx.checked_add(yy).is_some()
}

/// Whether every radius check against the living enemies of `team` is free
/// of overflow, so that the radius queries may run.
pub fn enemy_checks_fit_for(entities: &Vec<EntityInfo>, team: usize, center: EntityPos) -> (r: bool)
    ensures
        r == enemy_checks_fit(entities@, team, center),
{
    let mut i: usize = 0;
    while i < entities.len()
        invariant
            i <= entities@.len(),
            forall|j: int| 0 <= j < i && is_living_enemy(#[trigger] entities@[j], team) ==> radius_arith_fits(entities@[j].pos, center),
        decreases entities.len() - i,
    {
        let e = &entities[i];
        if e.alive && e.team != team && !radius_check_fits(e.pos, center) {
            assert(is_living_enemy(entities@[i as int], team));
            return false;
        }
        i = i + 1;
    }
    true
}

} // verus!
