use my_mod::targeting::{
    activate_damage_tracker, add_timed_marker, add_unique_timed_marker, buff_duration, count_buff_prefix, distance_to,
    entity_name_matches, find_nearest_with_buff, get_entity, has_buff, has_buff_count, has_shield, input_position,
    is_crowd_controlled, is_isolated, is_jungle_camp, is_target_at_or_below_hp_percent, projectile_launch_points,
    record_tracked_damage, rotation_distance, rotation_reference, sort_pairs, tracked_damage, tracker_buff_name,
    BuffOp, FindBuffTeam,
};
use my_mod::world::{BuffInfo, EntityInfo, InputTarget, InputTargetKind, Stat};

fn stat() -> Stat {
    Stat { attack: 82, magic_power: 0, hp: 1120, defence: 26, magic_resistance: 22, move_speed: 1050, hp_regen: 3, stack: 0, crit_chance: 12 }
}

fn buff(name: &str, duration: usize) -> BuffInfo {
    BuffInfo { name: name.to_string(), duration_tick: duration, timed: true }
}

fn entity(id: usize, team: usize, pos: (u64, u64), buffs: Vec<BuffInfo>) -> EntityInfo {
    EntityInfo {
        id,
        team,
        pos,
        alive: true,
        targetable: true,
        is_champion: true,
        is_minion: false,
        is_tower: false,
        hp: 500,
        max_hp: 1000,
        shield: 0,
        cc_count: 0,
        stat: stat(),
        name: Some("naruto".to_string()),
        buffs,
    }
}

fn op_view(op: &BuffOp) -> (bool, usize, String, usize) {
    match op {
        BuffOp::Remove { target_id, name } => (false, *target_id, name.clone(), 0),
        BuffOp::AddTimed { target_id, name, duration_ticks } => (true, *target_id, name.clone(), *duration_ticks),
    }
}

#[test]
fn buff_queries() {
    let e = entity(1, 0, (0, 0), vec![buff("stun", 30), buff("mark_0", 5), buff("stun", 10), buff("mark_1", 5)]);
    assert_eq!(buff_duration(Some(&e), "stun"), Some(30));
    assert_eq!(buff_duration(Some(&e), "none"), None);
    assert_eq!(buff_duration(None, "stun"), None);
    assert!(has_buff(Some(&e), "stun"));
    assert!(has_buff_count(Some(&e), "stun", 2));
    assert!(!has_buff_count(Some(&e), "stun", 3));
    assert!(has_buff_count(Some(&e), "none", 0));
    assert!(!has_buff_count(None, "none", 0));
    assert_eq!(count_buff_prefix(Some(&e), "mark_"), 2);
    assert_eq!(count_buff_prefix(None, "mark_"), 0);
}

#[test]
fn damage_trackers() {
    assert_eq!(tracker_buff_name("hits", true), "__forge_track_pre:hits");
    assert_eq!(tracker_buff_name("hits", false), "__forge_track_post:hits");
    let ops: Vec<_> = activate_damage_tracker(4, "hits", true, 90).iter().map(op_view).collect();
    assert_eq!(ops, vec![(false, 4, "__forge_track_pre:hits".to_string(), 0), (true, 4, "__forge_track_pre:hits".to_string(), 90)]);
    let e = entity(4, 0, (0, 0), vec![buff("__forge_track_pre:hits", 90), buff("other", 3), buff("__forge_track_post:hits", 20)]);
    let ops: Vec<_> = record_tracked_damage(Some(&e), 4, 25, true).iter().map(op_view).collect();
    assert_eq!(ops, vec![(false, 4, "__forge_track_pre:hits".to_string(), 0), (true, 4, "__forge_track_pre:hits".to_string(), 115)]);
    assert!(record_tracked_damage(Some(&e), 4, 0, true).is_empty());
    assert!(record_tracked_damage(None, 4, 10, true).is_empty());
    assert_eq!(tracked_damage(Some(&e), "hits"), 90);
    assert_eq!(tracked_damage(Some(&e), "none"), 0);
}

#[test]
fn markers() {
    let e = entity(4, 0, (0, 0), vec![buff("mark_1", 5), buff("mark_2", 5)]);
    let op = add_unique_timed_marker(Some(&e), 4, "mark_", 0).unwrap();
    assert_eq!(op_view(&op), (true, 4, "mark_3".to_string(), 1));
    let op = add_unique_timed_marker(None, 4, "mark_", 7).unwrap();
    assert_eq!(op_view(&op), (true, 4, "mark_0".to_string(), 7));
    let long = "x".repeat(70);
    let op = add_timed_marker(4, &long, 12);
    assert_eq!(op_view(&op), (true, 4, "x".repeat(64), 12));
}

#[test]
fn marker_search_past_truncated_collisions() {
    // A 62-character prefix leaves room for two digits, so indices from 100
    // on collide by their first two digits.
    let prefix = "p".repeat(62);
    let mut buffs = Vec::new();
    for d in 10..=20 {
        buffs.push(buff(&format!("{prefix}{d}"), 5));
    }
    for i in 0..89 {
        buffs.push(buff(&format!("{prefix}q{i}"), 5));
    }
    let e = entity(4, 0, (0, 0), buffs);
    assert_eq!(count_buff_prefix(Some(&e), &prefix), 100);
    let op = add_unique_timed_marker(Some(&e), 4, &prefix, 3).unwrap();
    assert_eq!(op_view(&op), (true, 4, format!("{prefix}21"), 3));
}

#[test]
fn marker_with_prefix_filling_the_name() {
    let prefix = "y".repeat(66);
    let e = entity(4, 0, (0, 0), vec![]);
    let op = add_unique_timed_marker(Some(&e), 4, &prefix, 2).unwrap();
    assert_eq!(op_view(&op), (true, 4, "y".repeat(64), 2));
    let taken = entity(4, 0, (0, 0), vec![buff(&"y".repeat(64), 5)]);
    assert!(add_unique_timed_marker(Some(&taken), 4, &prefix, 2).is_none());
}

#[test]
fn entity_checks() {
    let mut camp = entity(9, 2, (0, 0), vec![]);
    camp.is_champion = false;
    assert!(is_jungle_camp(Some(&camp)));
    camp.team = 1;
    assert!(!is_jungle_camp(Some(&camp)));
    assert!(!is_jungle_camp(None));
    let mut e = entity(1, 0, (0, 0), vec![]);
    assert!(entity_name_matches(Some(&e), " naruto "));
    assert!(!entity_name_matches(Some(&e), "   "));
    e.name = Some("naruto3".to_string());
    assert!(entity_name_matches(Some(&e), "naruto"));
    e.name = None;
    assert!(!entity_name_matches(Some(&e), "naruto"));
    let a = entity(1, 0, (0, 0), vec![]);
    let b = entity(2, 1, (3, 4), vec![]);
    assert_eq!(distance_to(Some(&a), Some(&b)), 25);
    assert_eq!(distance_to(Some(&a), None), u64::MAX);
    assert!(is_target_at_or_below_hp_percent(Some(&a), 50));
    assert!(!is_target_at_or_below_hp_percent(Some(&a), 49));
    let mut tower = entity(3, 1, (0, 0), vec![]);
    tower.is_tower = true;
    assert!(!is_target_at_or_below_hp_percent(Some(&tower), 100));
    let mut cc = entity(5, 0, (0, 0), vec![]);
    assert!(!is_crowd_controlled(Some(&cc)));
    cc.cc_count = 1;
    assert!(is_crowd_controlled(Some(&cc)));
    assert!(!has_shield(Some(&cc)));
    cc.shield = 10;
    assert!(has_shield(Some(&cc)));
    cc.is_champion = false;
    assert!(!has_shield(Some(&cc)));
}

#[test]
fn isolation() {
    let entities = vec![entity(1, 0, (0, 0), vec![]), entity(2, 0, (100, 0), vec![]), entity(3, 1, (1, 0), vec![])];
    assert!(!is_isolated(&entities, get_entity(&entities, 1), 1, 100));
    assert!(is_isolated(&entities, get_entity(&entities, 1), 1, 99));
    assert!(!is_isolated(&entities, None, 1, 99));
}

#[test]
fn nearest_targets_with_a_buff() {
    let entities = vec![
        entity(1, 0, (0, 0), vec![]),
        entity(2, 1, (500, 0), vec![buff("mark", 5)]),
        entity(3, 1, (100, 0), vec![buff("mark", 5)]),
        entity(4, 1, (50, 0), vec![]),
        entity(5, 0, (10, 0), vec![buff("mark", 5)]),
        entity(6, 1, (100, 0), vec![buff("mark", 5)]),
    ];
    assert_eq!(find_nearest_with_buff(&entities, 1, "mark", FindBuffTeam::Enemy, 2), vec![3, 6]);
    assert_eq!(find_nearest_with_buff(&entities, 1, "mark", FindBuffTeam::Enemy, 5), vec![3, 6, 2]);
    assert_eq!(find_nearest_with_buff(&entities, 1, "mark", FindBuffTeam::Ally, 5), vec![5]);
    assert!(find_nearest_with_buff(&entities, 1, "mark", FindBuffTeam::Enemy, 0).is_empty());
    assert!(find_nearest_with_buff(&entities, 99, "mark", FindBuffTeam::Enemy, 3).is_empty());
    assert_eq!(sort_pairs(&vec![(5, 1), (2, 9), (5, 0), (2, 3)]), vec![(2, 3), (2, 9), (5, 0), (5, 1)]);
}

#[test]
fn cast_inputs_and_launch_points() {
    let entities = vec![entity(1, 0, (1000, 1000), vec![]), entity(2, 1, (4000, 5000), vec![])];
    let target = InputTarget { kind: InputTargetKind::Target, target_id: 2, x: 0, y: 0, dir_x: 0, dir_y: 0 };
    let pos = InputTarget { kind: InputTargetKind::Pos, target_id: 0, x: 7, y: 8, dir_x: 0, dir_y: 0 };
    let dir = InputTarget { kind: InputTargetKind::Dir, target_id: 0, x: 7, y: 8, dir_x: 1, dir_y: 0 };
    assert_eq!(input_position(&entities, target), Some((4000, 5000)));
    assert_eq!(input_position(&entities, pos), Some((7, 8)));
    assert_eq!(input_position(&entities, dir), None);
    assert_eq!(rotation_reference(&entities, dir, 2, (1000, 1000)), (4000, 5000));
    assert_eq!(rotation_reference(&entities, dir, 99, (1000, 1000)), (1000, 1000));
    assert_eq!(rotation_distance((1000, 1000), (4000, 5000)), 5000);
    assert_eq!(rotation_distance((0, 0), (u64::MAX, 0)), 4_294_967_295);
    assert_eq!(projectile_launch_points(&entities, 1, 2, true, None), ((1000, 1000), (4000, 5000)));
    assert_eq!(projectile_launch_points(&entities, 1, 2, false, None), ((4000, 5000), (4000, 5000)));
    assert_eq!(projectile_launch_points(&entities, 1, 2, false, Some((9, 9))), ((9, 9), (9, 9)));
    assert_eq!(projectile_launch_points(&entities, 1, 99, false, None), ((1000, 1000), (1000, 1000)));
    assert_eq!(projectile_launch_points(&entities, 99, 99, true, None), ((0, 0), (0, 0)));
}
