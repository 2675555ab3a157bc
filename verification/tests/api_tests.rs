use entangled_worlds::api::{
    component_tags_from_list, EngineError, entity_tags_from_list, CachedComponent, CachedTag, ComponentID,
    ComponentTag, DamageType, EntityID, PhysicsBodyID, Tags, VarName,
};

#[test]
fn entity_ids_are_never_zero() {
    assert!(EntityID::new(0).is_err());
    let e = EntityID::new(41).unwrap();
    assert_eq!(e.raw(), 41);
    assert_eq!(e.next().unwrap().raw(), 42);
    assert!(EntityID::new(-1).unwrap().next().is_err());
    assert!(ComponentID::new(0).is_err());
    assert_eq!(ComponentID::new(-5).unwrap().raw(), -5);
}

#[test]
fn names_round_trip() {
    assert_eq!(CachedTag::from_tag(CachedTag::BossDragon.to_tag()), CachedTag::BossDragon);
    assert_eq!(CachedTag::DesTag.to_tag(), "ew_des");
    assert_eq!(VarName::from_str("ew_gid_lid"), VarName::EwGidLid);
    assert_eq!(VarName::from_str_non_const(""), VarName::NoName);
    assert_eq!(VarName::from_str_non_const("something_else"), VarName::Unknown);
    assert_eq!(VarName::from_str_non_const(VarName::Rolling.to_str()), VarName::Rolling);
    assert_eq!(ComponentTag::from_str("shop_cost"), ComponentTag::ShopCost);
    assert_eq!(ComponentTag::NoTag.to_str(), "");
    assert_eq!(DamageType::DamagePhysicsHit.to_str(), "DAMAGE_PHYSIICS_HIT");
    assert_eq!(DamageType::DamageNone.to_str(), "NONE");
    assert_eq!(CachedComponent::from_component_non_const("LuaComponent"), Some(CachedComponent::LuaComponent));
    assert_eq!(CachedComponent::from_component_non_const("Nope"), None);
}

#[test]
fn tag_sets() {
    let mut t = Tags(0u16);
    t.set(3);
    assert!(t.get(3));
    assert!(!t.get(2));
    t.clear(3);
    assert!(!t.get(3));
    assert_eq!(Tags::<u16>::default().0, 0);
}

#[test]
fn tag_lists_match_whole_entries() {
    let tags = component_tags_from_list("enabled_at_start,shop_cost");
    assert!(tags.get(ComponentTag::EnabledAtStart.index()));
    assert!(tags.get(ComponentTag::ShopCost.index()));
    assert!(!tags.get(ComponentTag::Disabled.index()));
    assert_eq!(tags.0, (1 << 5) | (1 << 6));
    let ent = entity_tags_from_list("enemy,ew_des_x,boss_dragon");
    assert!(ent.get(CachedTag::BossDragon.index()));
    assert!(!ent.get(CachedTag::DesTag.index()));
    assert_eq!(ent.0, 1 << 8);
}

#[test]
fn replies_about_entities() {
    let err = || EngineError::new("boom".to_string());
    let e = EntityID::new(7).unwrap();
    let p = EntityID::new(3).unwrap();
    assert!(EntityID::is_alive(Ok(true)));
    assert!(!EntityID::is_alive(Err(err())));
    assert!(!EntityID::has_tag(Ok(false)));
    assert_eq!(e.parent(Ok(Some(p))).ok().unwrap(), p);
    assert_eq!(e.parent(Ok(None)).ok().unwrap(), e);
    assert_eq!(EntityID::create(Ok(None)).err().unwrap().message, "ent not found");
    assert_eq!(EntityID::tags(Ok(None)).ok().unwrap(), "");
    assert_eq!(EntityID::children(Ok(Some(vec![Some(e), None, Some(p)]))), vec![e, p]);
    assert!(EntityID::children(Err(err())).is_empty());
    assert_eq!(EntityID::get_with_tag(Ok(vec![None, Some(p)])).ok().unwrap(), vec![p]);
    assert!(EntityID::max_in_use(Ok(0)).is_err());
    assert_eq!(EntityID::max_in_use(Ok(12)).ok().unwrap().raw(), 12);
    assert_eq!(EntityID::check_all_phys_init(vec![Ok(true), Ok(true)]).ok(), Some(true));
    assert_eq!(EntityID::check_all_phys_init(vec![Ok(true), Ok(false), Err(err())]).ok(), Some(false));
    assert!(EntityID::check_all_phys_init(vec![Err(err()), Ok(false)]).is_err());
}

#[test]
fn killing_lets_go_of_held_bodies() {
    let cid = |v: isize| match ComponentID::new(v) {
        Ok(c) => c,
        Err(_) => panic!("zero id"),
    };
    let err = || EngineError::new("failed".to_string());
    assert!(EntityID::kill_frees_bodies(true, Ok(None), Ok(true)));
    assert!(EntityID::kill_frees_bodies(true, Err(err()), Ok(true)));
    assert!(!EntityID::kill_frees_bodies(true, Ok(Some(cid(3))), Ok(true)));
    assert!(!EntityID::kill_frees_bodies(false, Ok(None), Ok(true)));
    assert!(!EntityID::kill_frees_bodies(true, Ok(None), Ok(false)));
    assert!(!EntityID::kill_frees_bodies(true, Ok(None), Err(err())));
    let bodies = [PhysicsBodyID(4), PhysicsBodyID(9)];
    let grabs = [(cid(1), PhysicsBodyID(9)), (cid(2), PhysicsBodyID(5)), (cid(3), PhysicsBodyID(4))];
    let released: Vec<isize> = EntityID::grabs_to_release(&bodies, &grabs).iter().map(|c| c.raw()).collect();
    assert_eq!(released, vec![1, 3]);
    assert!(EntityID::grabs_to_release(&[], &grabs).is_empty());
}

#[test]
fn component_replies_are_mapped() {
    let c = ComponentID::new(7).unwrap();
    let err = || EngineError::new("gone".to_string());
    let ent = EntityID::new(-42).unwrap();
    assert_eq!(ent.shown(), "EntityID(-42)");
    assert_eq!(EntityID::new(1234).unwrap().shown(), "EntityID(1234)");
    assert!(matches!(ent.try_get_first_component("DamageModelComponent", Ok(Some(Some(c)))), Ok(Some(d)) if d.raw() == 7));
    assert!(matches!(ent.try_get_first_component("DamageModelComponent", Ok(Some(None))), Ok(None)));
    assert!(matches!(ent.try_get_first_component_including_disabled("DamageModelComponent", Ok(None)), Ok(None)));
    match ent.try_get_first_component("DamageModelComponent", Err(err())) {
        Err(e) => {
            assert_eq!(e.message, "gone");
            assert_eq!(e.context, vec!["Failed to get first component DamageModelComponent for EntityID(-42)".to_string()]);
            assert_eq!(e.to_string(), "Failed to get first component DamageModelComponent for EntityID(-42)");
        }
        Ok(_) => panic!("expected an error"),
    }
    assert!(matches!(ent.get_first_component("LuaComponent", Ok(Some(Some(c)))), Ok(d) if d.raw() == 7));
    match ent.get_first_component_including_disabled("LuaComponent", Ok(None)) {
        Err(e) => {
            assert_eq!(e.message, "Entity EntityID(-42) has no component LuaComponent");
            assert!(e.context.is_empty());
            assert_eq!(e.to_string(), "Entity EntityID(-42) has no component LuaComponent");
        }
        Ok(_) => panic!("expected an error"),
    }
    match ent.get_first_component("LuaComponent", Err(err())) {
        Err(e) => assert_eq!(e.to_string(), "Failed to get first component LuaComponent for EntityID(-42)"),
        Ok(_) => panic!("expected an error"),
    }
    assert!(matches!(ComponentID::get_tags(Ok(Some("a,b".to_string()))), Ok(ref t) if t == "a,b"));
    assert!(matches!(ComponentID::get_tags(Ok(None)), Err(ref e) if e.message == "no string found"));
    assert!(matches!(EntityID::parent(EntityID::new(3).unwrap(), Err(err())), Err(ref e) if e.message == "gone"));
}
