use entangled_worlds::game_effects::{
    effect_actions, effect_eq, effects_to_kill_first, extended_duration, find_effect,
    fire_probability, unwanted_effects, EffectAction, GameEffectData, GameEffectKind,
};

fn normal(k: GameEffectKind) -> GameEffectData {
    GameEffectData::Normal(k)
}

fn custom(s: &str) -> GameEffectData {
    GameEffectData::Custom(s.to_string())
}

#[test]
fn effects_compare_by_content() {
    assert!(effect_eq(&custom("a.xml"), &custom("a.xml")));
    assert!(!effect_eq(&custom("a.xml"), &custom("b.xml")));
    assert!(!effect_eq(&normal(GameEffectKind::OnFire), &custom("a.xml")));
    let p1 = GameEffectData::Projectile("spark0".to_string(), vec![1, 2]);
    let p2 = GameEffectData::Projectile("spark0".to_string(), vec![1, 3]);
    assert!(!effect_eq(&p1, &p2));
    assert!(effect_eq(&normal(GameEffectKind::Other(7)), &normal(GameEffectKind::Other(7))));
}

#[test]
fn polymorphs_and_repeats_go_first() {
    let local = vec![
        normal(GameEffectKind::OnFire),
        normal(GameEffectKind::PolymorphRandom),
        custom("a.xml"),
        normal(GameEffectKind::OnFire),
        custom("a.xml"),
        normal(GameEffectKind::Other(3)),
    ];
    assert_eq!(
        effects_to_kill_first(&local),
        vec![true, true, true, false, false, false]
    );
    assert!(effects_to_kill_first(&Vec::new()).is_empty());
}

#[test]
fn wanted_effects_are_extended_or_spawned() {
    let local = vec![custom("a.xml"), normal(GameEffectKind::OnFire), custom("a.xml")];
    let wanted = vec![normal(GameEffectKind::OnFire), custom("b.xml"), custom("a.xml")];
    assert_eq!(
        effect_actions(&local, &wanted),
        vec![EffectAction::Extend(1), EffectAction::Spawn, EffectAction::Extend(0)]
    );
    assert_eq!(find_effect(&local, &custom("zzz")), None);
}

#[test]
fn unwanted_effects_are_flagged() {
    let local = vec![custom("a.xml"), normal(GameEffectKind::OnFire), normal(GameEffectKind::Other(2))];
    let wanted = vec![normal(GameEffectKind::Other(2))];
    assert_eq!(unwanted_effects(&local, &wanted), vec![true, true, false]);
    assert_eq!(unwanted_effects(&local, &Vec::new()), vec![true, true, true]);
}

#[test]
fn burning_sets_fire_probability() {
    assert_eq!(fire_probability(&vec![custom("a.xml"), normal(GameEffectKind::OnFire)]), 1600);
    assert_eq!(fire_probability(&vec![custom("a.xml")]), 0);
    assert_eq!(fire_probability(&Vec::new()), 0);
}

#[test]
fn running_durations_become_endless() {
    assert_eq!(extended_duration(0), Some(i32::MAX));
    assert_eq!(extended_duration(120), Some(i32::MAX));
    assert_eq!(extended_duration(-1), None);
}
