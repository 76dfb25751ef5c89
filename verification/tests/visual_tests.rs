use my_mod::state::ModState;
use my_mod::visuals::{
    binding, binding_exists, buff_vfx_snapshot, clear_projectile_view_effects, frame_for, is_presentation_viable,
    refresh_buff_visuals, start_projectile_view_effect, update_projectile_view_effects, Binding,
};
use my_mod::world::{BuffInfo, EntityInfo, ProjectileInfo, SimOrigin, Stat};

fn binding_of(name: &str, frames: Vec<usize>) -> Binding {
    Binding { name: name.to_string(), texture: format!("{name}.png"), z: 3, frame_durations: frames }
}

fn entity(id: usize, alive: bool, pos: (u64, u64), buffs: &[&str]) -> EntityInfo {
    EntityInfo {
        id,
        team: 0,
        pos,
        alive,
        targetable: true,
        is_champion: true,
        is_minion: false,
        is_tower: false,
        hp: 1,
        max_hp: 1,
        shield: 0,
        cc_count: 0,
        stat: Stat { attack: 1, magic_power: 0, hp: 1, defence: 0, magic_resistance: 0, move_speed: 0, hp_regen: 0, stack: 0, crit_chance: 0 },
        name: None,
        buffs: buffs.iter().map(|n| BuffInfo { name: n.to_string(), duration_tick: 5, timed: true }).collect(),
    }
}

#[test]
fn frames_loop_over_the_total_duration() {
    let b = binding_of("aura", vec![2, 0, 3]);
    // Frame spans: [0,2) [2,3) [3,6), total 6.
    assert_eq!(frame_for(&b, 0), Some(0));
    assert_eq!(frame_for(&b, 1), Some(0));
    assert_eq!(frame_for(&b, 2), Some(1));
    assert_eq!(frame_for(&b, 3), Some(2));
    assert_eq!(frame_for(&b, 5), Some(2));
    assert_eq!(frame_for(&b, 6), Some(0));
    assert_eq!(frame_for(&b, 14), Some(1));
    assert_eq!(frame_for(&b, 17), Some(2));
    assert_eq!(frame_for(&binding_of("empty", vec![]), 4), None);
    let bindings = vec![binding_of("aura", vec![1]), binding_of("dot", vec![1])];
    assert!(binding_exists(&bindings, "dot"));
    assert!(!binding_exists(&bindings, "nope"));
    assert_eq!(binding(&bindings, "dot").map(|b| b.texture.clone()), Some("dot.png".to_string()));
}

#[test]
fn buff_visuals_track_their_start() {
    let mut st: ModState<u32> = ModState::new();
    let bindings = vec![binding_of("aura", vec![1]), binding_of("dot", vec![1])];
    let entities = vec![entity(1, true, (10, 20), &["aura", "x", "aura", "dot"]), entity(2, false, (0, 0), &["aura"])];
    refresh_buff_visuals(&mut st, 5, 100, &entities, &bindings);
    let snaps = buff_vfx_snapshot(&st);
    assert_eq!(snaps.len(), 2);
    assert_eq!(snaps[0].binding_name, "aura");
    assert_eq!(snaps[1].binding_name, "dot");
    assert_eq!(snaps[0].pos, (10, 20));
    assert_eq!(snaps[0].elapsed_ticks, 0);
    refresh_buff_visuals(&mut st, 5, 130, &entities, &bindings);
    assert_eq!(buff_vfx_snapshot(&st)[0].elapsed_ticks, 30);
    // The aura goes away and comes back: it starts over.
    let without = vec![entity(1, true, (10, 20), &["dot"])];
    refresh_buff_visuals(&mut st, 5, 140, &without, &bindings);
    assert_eq!(buff_vfx_snapshot(&st).len(), 1);
    refresh_buff_visuals(&mut st, 5, 150, &entities, &bindings);
    let snaps = buff_vfx_snapshot(&st);
    assert_eq!(snaps[0].elapsed_ticks, 0);
    assert_eq!(snaps[1].elapsed_ticks, 50);
    // The latest refreshed simulation is the one shown.
    refresh_buff_visuals(&mut st, 6, 150, &vec![], &bindings);
    assert!(buff_vfx_snapshot(&st).is_empty());
}

#[test]
fn presentation_only_in_watched_simulations() {
    assert!(is_presentation_viable(Some(SimOrigin::ClientMatchView)));
    assert!(is_presentation_viable(Some(SimOrigin::ClientSpectate)));
    assert!(is_presentation_viable(Some(SimOrigin::ClientReplay)));
    assert!(!is_presentation_viable(Some(SimOrigin::Other)));
    assert!(!is_presentation_viable(None));
}

#[test]
fn projectile_trackers_follow_and_end() {
    let mut st: ModState<u32> = ModState::new();
    let live = Some(SimOrigin::ClientMatchView);
    start_projectile_view_effect(&mut st, 5, None, 1, "rasengan", 0, 0, "trail", 300);
    start_projectile_view_effect(&mut st, 5, live, 1, "rasengan", 0, 0, "  ", 300);
    assert!(st.projectile_view_effects.is_empty());
    start_projectile_view_effect(&mut st, 5, live, 1, "rasengan", 0, 0, "trail", 300);
    start_projectile_view_effect(&mut st, 5, live, 1, "rasengan", 5, 5, "trail", 300);
    start_projectile_view_effect(&mut st, 6, live, 1, "rasengan", 0, 0, "trail", 300);
    assert_eq!(st.projectile_view_effects.len(), 2);
    assert_eq!(st.projectile_view_effects[0].0, 2);
    let projectiles = vec![
        ProjectileInfo { caster_id: 1, x: 100, y: 0, is_end: false },
        ProjectileInfo { caster_id: 1, x: 10, y: 10, is_end: false },
        ProjectileInfo { caster_id: 2, x: 5, y: 5, is_end: false },
    ];
    let plays = update_projectile_view_effects(&mut st, 5, live, &projectiles);
    assert_eq!(plays.len(), 1);
    assert_eq!((plays[0].effect_name.as_str(), plays[0].caster_id, plays[0].x, plays[0].y, plays[0].radius), ("trail", 1, 10, 10, 300));
    assert_eq!((st.projectile_view_effects[0].1.last_x, st.projectile_view_effects[0].1.last_y), (10, 10));
    // Other simulations' trackers are untouched.
    assert_eq!((st.projectile_view_effects[1].1.last_x, st.projectile_view_effects[1].1.last_y), (0, 0));
    // Nobody watching: nothing happens.
    assert!(update_projectile_view_effects(&mut st, 5, None, &vec![]).is_empty());
    assert_eq!(st.projectile_view_effects.len(), 2);
    // The projectile ended: the tracker goes.
    let ended = vec![ProjectileInfo { caster_id: 1, x: 12, y: 12, is_end: true }];
    assert!(update_projectile_view_effects(&mut st, 5, live, &ended).is_empty());
    assert_eq!(st.projectile_view_effects.len(), 1);
    clear_projectile_view_effects(&mut st, 6);
    assert!(st.projectile_view_effects.is_empty());
}
