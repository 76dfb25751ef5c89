use my_mod::abilities::{
    any_enemy_near, enemy_checks_fit_for, near_scan_fits_for, clone_positions, death_punch_damage, expected_percent_damage, flurry_damage, godless_targets,
    paragon_growth, paragon_stat, percent_damage, serious_mode_cast, serious_punch_damage, shatter_chain_damage,
    table_flip_damage, wrathgrasp_damage, CloneFormation, ParagonPassive, SeriousModeCast, GODLESS_TICK_DAMAGE,
};
use my_mod::world::{EntityInfo, Stat};

fn entity(id: usize, team: usize, pos: (u64, u64), alive: bool) -> EntityInfo {
    EntityInfo {
        id,
        team,
        pos,
        alive,
        targetable: true,
        is_champion: true,
        is_minion: false,
        is_tower: false,
        hp: 1,
        max_hp: 1,
        shield: 0,
        cc_count: 0,
        stat: paragon_stat(),
        name: None,
        buffs: vec![],
    }
}

#[test]
fn paragon_numbers() {
    let s: Stat = paragon_stat();
    assert_eq!((s.attack, s.hp, s.defence, s.magic_resistance, s.move_speed, s.hp_regen), (90, 1300, 35, 30, 1000, 2));
    let g = paragon_growth();
    assert_eq!((g.attack, g.hp, g.defence, g.magic_resistance, g.move_speed, g.hp_regen), (18, 130, 6, 5, 5, 1));
    assert_eq!(wrathgrasp_damage(90), 126);
    assert_eq!(shatter_chain_damage(90), 81);
    assert_eq!(expected_percent_damage(90, 140), 126);
    assert_eq!(percent_damage(99, 50), 49);
    assert_eq!(percent_damage(100, -30), 0);
    assert_eq!(GODLESS_TICK_DAMAGE, 40);
}

#[test]
fn godless_channel_targets() {
    let caster = entity(1, 0, (10_000, 10_000), true);
    let entities = vec![
        entity(1, 0, (10_000, 10_000), true),
        entity(2, 1, (19_000, 10_000), true),
        entity(3, 1, (19_001, 10_000), true),
        entity(4, 1, (10_000, 10_000), false),
        entity(5, 0, (10_000, 10_001), true),
        entity(6, 1, (1_000, 10_000), true),
    ];
    assert_eq!(godless_targets(&entities, Some(&caster)), vec![2, 6]);
    assert!(godless_targets(&entities, None).is_empty());
    assert!(any_enemy_near(&entities, &caster));
    let alone = vec![entity(7, 1, (30_000, 10_000), true)];
    assert!(!any_enemy_near(&alone, &caster));
}

#[test]
fn passive_checks_once_per_sixty_updates() {
    let mut p = ParagonPassive::new();
    for _ in 0..59 {
        assert!(!p.on_update_tick());
    }
    assert!(p.on_update_tick());
    assert_eq!(p.tick_accumulator(), 0);
    assert!(!p.on_update_tick());
}

#[test]
fn saitama_damage() {
    // 3 hits at 90% + 15% per tier.
    assert_eq!(flurry_damage(100, 0, 3, 90), 30);
    assert_eq!(flurry_damage(100, 4, 3, 90), 50);
    assert_eq!(flurry_damage(100, 50, 2, 100), 200);
    assert_eq!(flurry_damage(0, 0, 3, 90), 1);
    assert_eq!(serious_punch_damage(100, 0, 80), 880);
    assert_eq!(serious_punch_damage(100, 30, 80), 2880);
    assert_eq!(table_flip_damage(100, 5), 250);
    assert_eq!(death_punch_damage(100, 25), 1800);
    assert_eq!(serious_mode_cast(true), SeriousModeCast::DeathPunch);
    assert_eq!(serious_mode_cast(false), SeriousModeCast::Activate);
}

#[test]
fn naruto_clone_formations() {
    assert_eq!(clone_positions(CloneFormation::One, (5000, 5000)), vec![(7000, 5000)]);
    assert_eq!(clone_positions(CloneFormation::Two, (5000, 1000)), vec![(7000, 2500), (7000, 0)]);
    assert_eq!(
        clone_positions(CloneFormation::Swarm, (1000, 5000)),
        vec![(3500, 6500), (3500, 3500), (0, 7000), (0, 3000)]
    );
}

#[test]
fn radius_checks_that_would_overflow() {
    let caster = entity(1, 0, (9_223_372_036_854_775_807, 0), true);
    let huge = || entity(2, 1, (u64::MAX, 0), true);
    let near = || entity(3, 1, (9_223_372_036_854_775_000, 0), true);
    assert!(!enemy_checks_fit_for(&vec![huge()], 0, caster.pos));
    assert!(enemy_checks_fit_for(&vec![near()], 0, caster.pos));
    // The proximity scan stops at the first near enemy.
    assert!(near_scan_fits_for(&vec![near(), huge()], &caster));
    assert!(!near_scan_fits_for(&vec![huge(), near()], &caster));
    assert!(any_enemy_near(&vec![near(), huge()], &caster));
}
