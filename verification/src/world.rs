//! Plain snapshots of what the logic reads from a running match: entities,
//! their buffs, players, cast inputs, projectiles and the kill log.
use vstd::prelude::*;
use crate::geometry::EntityPos;

verus! {

/// Champion statistics.
#[derive(Clone, Copy, Debug)]
pub struct Stat {
    pub attack: usize,
    pub magic_power: usize,
    pub hp: usize,
    pub defence: usize,
    pub magic_resistance: usize,
    pub move_speed: usize,
    pub hp_regen: usize,
    pub stack: usize,
    pub crit_chance: usize,
}

/// One live buff on an entity.
pub struct BuffInfo {
    pub name: String,
    /// Remaining ticks (meaningful for timed buffs).
    pub duration_tick: usize,
    /// Whether the buff runs out after `duration_tick` ticks.
    pub timed: bool,
}

/// One entity of the match.
pub struct EntityInfo {
    pub id: usize,
    pub team: usize,
    pub pos: EntityPos,
    pub alive: bool,
    pub targetable: bool,
    pub is_champion: bool,
    pub is_minion: bool,
    pub is_tower: bool,
    pub hp: usize,
    pub max_hp: usize,
    pub shield: usize,
    pub cc_count: usize,
    pub stat: Stat,
    pub name: Option<String>,
    pub buffs: Vec<BuffInfo>,
}

/// One player of the match.
pub struct PlayerInfo {
    pub id: usize,
    /// The player's current champion entity, if any.
    pub champion_id: Option<usize>,
    pub level: usize,
    pub team: usize,
    /// Lane code, if the player has a lane.
    pub lane: Option<u32>,
}

/// A kill-log entry: the killer's team and lane position, and the lane
/// positions of the assisting players.
pub struct KillLogEntry {
    pub killer_team: usize,
    pub killer_position: u32,
    pub assist_positions: Vec<u32>,
}

/// A live projectile.
#[derive(Clone, Copy, Debug)]
pub struct ProjectileInfo {
    pub caster_id: usize,
    pub x: u64,
    pub y: u64,
    pub is_end: bool,
}

/// Kind of a cast input.
#[derive(Clone, Copy, Debug, PartialEq, Eq)]
pub enum InputTargetKind {
    Target,
    Pos,
    Dir,
    Other,
}

/// A cast input: a target entity, a position or a direction.
#[derive(Clone, Copy, Debug)]
pub struct InputTarget {
    pub kind: InputTargetKind,
    pub target_id: usize,
    pub x: u64,
    pub y: u64,
    pub dir_x: i64,
    pub dir_y: i64,
}

/// Where a simulation comes from.
#[derive(Clone, Copy, Debug, PartialEq, Eq)]
pub enum SimOrigin {
    ClientMatchView,
    ClientSpectate,
    ClientReplay,
    Other,
}

} // verus!
