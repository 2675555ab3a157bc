use entangled_worlds::api::{CachedComponent, CachedTag, ComponentID, ComponentTag, EngineError, EntityID, VarName};
use entangled_worlds::entity_cache::{get_file, ComponentData, EntityData, EntityManager, FileCache};

fn cid(v: isize) -> ComponentID {
    match ComponentID::new(v) {
        Ok(c) => c,
        Err(_) => panic!("zero id"),
    }
}

fn eid(v: isize) -> EntityID {
    match EntityID::new(v) {
        Ok(e) => e,
        Err(_) => panic!("zero id"),
    }
}

fn fail(msg: &str) -> EngineError {
    EngineError::new(msg.to_string())
}

fn comp(id: isize, enabled: bool, tags: &str) -> ComponentData {
    ComponentData::new(cid(id), false, Ok(enabled), Err(fail("unused")), Ok(tags.to_string()))
}

fn var(id: isize, name: &str) -> ComponentData {
    ComponentData::new(cid(id), true, Ok(true), Ok(name.to_string()), Ok(String::new()))
}

fn ids(v: &[ComponentID]) -> Vec<isize> {
    v.iter().map(|c| c.raw()).collect()
}

fn sample_entity() -> EntityData {
    EntityData::new(
        "ew_client,boss_dragon",
        vec![
            (CachedComponent::LuaComponent, comp(11, true, "ew_des_lua")),
            (CachedComponent::VariableStorageComponent, var(20, "ew_rng")),
            (CachedComponent::LuaComponent, comp(12, false, "ew_des_lua,disabled")),
            (CachedComponent::LuaComponent, comp(13, true, "")),
            (CachedComponent::VariableStorageComponent, var(21, "my_custom_name")),
            (CachedComponent::PhysicsBody2Component, comp(30, true, "")),
            (CachedComponent::PhysicsBody2Component, comp(31, false, "")),
        ],
    )
}

fn manager_on(ent: isize, data: EntityData) -> EntityManager {
    let mut m = EntityManager::default();
    let r = m.set_current_entity(eid(ent), move || Ok(data));
    assert!(r.is_ok());
    m
}

#[test]
fn component_data_from_replies() {
    let c = ComponentData::new(cid(5), true, Ok(true), Ok("ew_gid_lid".to_string()), Ok("shop_cost,character".to_string()));
    assert_eq!(c.id.raw(), 5);
    assert!(c.enabled);
    assert!(c.name == VarName::EwGidLid);
    assert!(c.tags.get(ComponentTag::ShopCost.index()));
    assert!(c.tags.get(ComponentTag::Character.index()));
    assert!(!c.tags.get(ComponentTag::Disabled.index()));

    let failed = ComponentData::new(cid(6), true, Err(fail("a")), Err(fail("b")), Err(fail("c")));
    assert!(!failed.enabled);
    assert!(failed.name == VarName::NoName);
    assert_eq!(failed.tags.0, 0);

    let plain = ComponentData::new(cid(7), false, Ok(false), Ok("ew_rng".to_string()), Ok("ew_synced_var_x".to_string()));
    assert!(plain.name == VarName::NoName);
    assert!(!plain.tags.get(ComponentTag::EwSyncedVar.index()));
}

#[test]
fn entity_data_groups_components_by_type() {
    let m = manager_on(1, sample_entity());
    let lua = m.iter_all_components_of_type_including_disabled(CachedComponent::LuaComponent, ComponentTag::NoTag, || panic!("no game"));
    assert_eq!(ids(&lua), vec![11, 12, 13]);
    let enabled_lua = m.iter_all_components_of_type(CachedComponent::LuaComponent, ComponentTag::NoTag, || panic!("no game"));
    assert_eq!(ids(&enabled_lua), vec![11, 13]);
    let tagged = m.iter_all_components_of_type_including_disabled(CachedComponent::LuaComponent, ComponentTag::EwDesLua, || panic!("no game"));
    assert_eq!(ids(&tagged), vec![11, 12]);
    let none = m.iter_all_components_of_type(CachedComponent::SpriteComponent, ComponentTag::NoTag, || panic!("no game"));
    assert!(none.is_empty());
    assert!(m.has_tag(CachedTag::EwClient, || panic!("no game")));
    assert!(m.has_tag(CachedTag::BossDragon, || panic!("no game")));
    assert!(!m.has_tag(CachedTag::DesTag, || panic!("no game")));
}

#[test]
fn first_component_queries() {
    let m = manager_on(1, sample_entity());
    let first = m.try_get_first_component(CachedComponent::LuaComponent, ComponentTag::Disabled, || panic!("no game"));
    assert!(first.is_none());
    let first = m.try_get_first_component_including_disabled(CachedComponent::LuaComponent, ComponentTag::Disabled, || panic!("no game"));
    assert_eq!(first.map(|c| c.raw()), Some(12));
    let first = m.try_get_first_component(CachedComponent::LuaComponent, ComponentTag::NoTag, || panic!("no game"));
    assert_eq!(first.map(|c| c.raw()), Some(11));
    match m.get_first_component(CachedComponent::SpriteComponent, ComponentTag::NoTag, || panic!("no game")) {
        Ok(_) => panic!("expected no component"),
        Err(e) => assert_eq!(e.message, "no comp found"),
    }
    match m.get_first_component_including_disabled(CachedComponent::PhysicsBody2Component, ComponentTag::NoTag, || panic!("no game")) {
        Ok(c) => assert_eq!(c.raw(), 30),
        Err(_) => panic!("expected a component"),
    }
}

#[test]
fn switching_back_restores_cached_data() {
    let mut m = manager_on(1, sample_entity());
    assert!(m.add_tag(CachedTag::SeedD, Ok(())).is_ok());
    let other = EntityData::new("egg_item", vec![(CachedComponent::ItemComponent, comp(40, true, ""))]);
    assert!(m.set_current_entity(eid(2), move || Ok(other)).is_ok());
    assert_eq!(m.entity().raw(), 2);
    assert!(m.has_tag(CachedTag::EggItem, || panic!("no game")));
    assert!(!m.has_tag(CachedTag::SeedD, || panic!("no game")));
    assert!(m.set_current_entity(eid(1), || panic!("entity 1 is cached")).is_ok());
    assert!(m.has_tag(CachedTag::SeedD, || panic!("no game")));
    assert!(m.has_tag(CachedTag::EwClient, || panic!("no game")));
    let lua = m.iter_all_components_of_type_including_disabled(CachedComponent::LuaComponent, ComponentTag::NoTag, || panic!("no game"));
    assert_eq!(ids(&lua), vec![11, 12, 13]);
    assert!(m.set_current_entity(eid(1), || panic!("already current")).is_ok());
}

#[test]
fn removed_entities_are_loaded_again() {
    let mut m = manager_on(1, sample_entity());
    assert!(m.set_current_entity(eid(2), || Ok(EntityData::new("", vec![]))).is_ok());
    m.remove_ent(&eid(1));
    let mut loaded = false;
    let r = m.set_current_entity(eid(1), || {
        loaded = true;
        Ok(EntityData::new("boss_wizard", vec![]))
    });
    assert!(r.is_ok());
    assert!(loaded);
    assert!(m.has_tag(CachedTag::BossWizard, || panic!("no game")));
    assert!(!m.has_tag(CachedTag::EwClient, || panic!("no game")));
}

#[test]
fn failed_load_keeps_old_data() {
    let mut m = manager_on(1, sample_entity());
    let r = m.set_current_entity(eid(3), || Err(fail("dead entity")));
    match r {
        Ok(()) => panic!("expected failure"),
        Err(e) => assert_eq!(e.message, "dead entity"),
    }
    assert_eq!(m.entity().raw(), 3);
    assert!(m.has_tag(CachedTag::EwClient, || panic!("no game")));
}

#[test]
fn tags_follow_the_game() {
    let mut m = manager_on(1, sample_entity());
    assert!(m.remove_tag(CachedTag::EwClient, Err(fail("refused"))).is_err());
    assert!(m.has_tag(CachedTag::EwClient, || panic!("no game")));
    assert!(m.remove_tag(CachedTag::EwClient, Ok(())).is_ok());
    assert!(!m.has_tag(CachedTag::EwClient, || panic!("no game")));
    assert!(m.add_tag(CachedTag::EwClient, Ok(())).is_ok());
    assert!(m.has_tag(CachedTag::EwClient, || panic!("no game")));
}

#[test]
fn remove_all_components_of_type_by_tag() {
    let mut m = manager_on(1, sample_entity());
    let removed = std::cell::RefCell::new(Vec::new());
    let r = m.remove_all_components_of_type(
        CachedComponent::LuaComponent,
        ComponentTag::EwDesLua,
        |id| {
            removed.borrow_mut().push(id.raw());
            Ok(())
        },
        || panic!("no game"),
    );
    assert!(matches!(r, Ok(true)));
    assert_eq!(*removed.borrow(), vec![11, 12]);
    let lua = m.iter_all_components_of_type_including_disabled(CachedComponent::LuaComponent, ComponentTag::NoTag, || panic!("no game"));
    assert_eq!(ids(&lua), vec![13]);
    let r = m.remove_all_components_of_type(CachedComponent::LuaComponent, ComponentTag::EwDesLua, |_| panic!("nothing to remove"), || panic!("no game"));
    assert!(matches!(r, Ok(false)));
}

#[test]
fn remove_all_stops_at_first_failure() {
    let mut m = manager_on(1, sample_entity());
    let r = m.remove_all_components_of_type(
        CachedComponent::LuaComponent,
        ComponentTag::NoTag,
        |id| if id.raw() == 12 { Err(fail("stuck")) } else { Ok(()) },
        || panic!("no game"),
    );
    match r {
        Ok(_) => panic!("expected failure"),
        Err(e) => assert_eq!(e.message, "stuck"),
    }
    let lua = m.iter_all_components_of_type_including_disabled(CachedComponent::LuaComponent, ComponentTag::NoTag, || panic!("no game"));
    assert!(lua.is_empty());
}

#[test]
fn enabling_by_tag() {
    let mut m = manager_on(1, sample_entity());
    let mut told = false;
    let r = m.set_components_with_tag_enabled(ComponentTag::EwDesLua, false, || {
        told = true;
        Ok(())
    });
    assert!(r.is_ok());
    assert!(told);
    let enabled_lua = m.iter_all_components_of_type(CachedComponent::LuaComponent, ComponentTag::NoTag, || panic!("no game"));
    assert_eq!(ids(&enabled_lua), vec![13]);
    let r = m.set_components_with_tag_enabled(ComponentTag::ShopCost, true, || panic!("no component carries the tag"));
    assert!(r.is_ok());
}

#[test]
fn enabling_one_component() {
    let mut m = manager_on(1, sample_entity());
    let r = m.set_component_enabled(CachedComponent::LuaComponent, cid(11), true, || panic!("already enabled"));
    assert!(r.is_ok());
    let mut told = false;
    let r = m.set_component_enabled(CachedComponent::LuaComponent, cid(12), true, || {
        told = true;
        Ok(())
    });
    assert!(r.is_ok());
    assert!(told);
    let enabled_lua = m.iter_all_components_of_type(CachedComponent::LuaComponent, ComponentTag::NoTag, || panic!("no game"));
    assert_eq!(ids(&enabled_lua), vec![11, 12, 13]);
    let r = m.set_component_enabled(CachedComponent::LuaComponent, cid(99), false, || panic!("not cached"));
    assert!(r.is_ok());
}

#[test]
fn removing_and_adding_components() {
    let mut m = manager_on(1, sample_entity());
    assert!(m.remove_component(CachedComponent::LuaComponent, cid(12), Ok(())).is_ok());
    let lua = m.iter_all_components_of_type_including_disabled(CachedComponent::LuaComponent, ComponentTag::NoTag, || panic!("no game"));
    assert_eq!(ids(&lua), vec![11, 13]);
    match m.add_component(CachedComponent::LuaComponent, Ok(comp(14, true, "activate"))) {
        Ok(c) => assert_eq!(c.raw(), 14),
        Err(_) => panic!("expected the new id"),
    }
    assert!(m.add_lua_init_component(CachedComponent::LuaComponent, Err(fail("no lua"))).is_err());
    let lua = m.iter_all_components_of_type_including_disabled(CachedComponent::LuaComponent, ComponentTag::NoTag, || panic!("no game"));
    assert_eq!(ids(&lua), vec![11, 13, 14]);
    let first = m.try_get_first_component(CachedComponent::LuaComponent, ComponentTag::Activate, || panic!("no game"));
    assert_eq!(first.map(|c| c.raw()), Some(14));
}

#[test]
fn physics_init_is_remembered() {
    let mut m = manager_on(1, sample_entity());
    let r = m.check_all_phys_init(|id| Ok(id.raw() != 30), || panic!("no game"));
    assert!(matches!(r, Ok(false)));
    let r = m.check_all_phys_init(|id| if id.raw() == 30 { Ok(true) } else { panic!("disabled bodies are not asked") }, || panic!("no game"));
    assert!(matches!(r, Ok(true)));
    let r = m.check_all_phys_init(|_| panic!("remembered"), || panic!("no game"));
    assert!(matches!(r, Ok(true)));
}

#[test]
fn variables_by_name() {
    let mut m = manager_on(1, sample_entity());
    assert_eq!(m.get_var(VarName::EwRng, || panic!("no game")).map(|c| c.raw()), Some(20));
    assert!(m.get_var(VarName::Active, || panic!("no game")).is_none());
    let found = m.get_var_unknown("my_custom_name", |id| Ok(if id.raw() == 21 { "my_custom_name".to_string() } else { String::new() }), || panic!("no game"));
    assert_eq!(found.map(|c| c.raw()), Some(21));
    let found = m.get_var_unknown("other", |_| Ok("my_custom_name".to_string()), || panic!("no game"));
    assert!(found.is_none());

    let existing = m.get_var_or_default(VarName::EwRng, || panic!("exists"), |_| panic!("exists"), || panic!("no game"));
    assert!(matches!(existing, Ok(c) if c.raw() == 20));
    let mut named = false;
    let made = m.get_var_or_default(VarName::Active, || Ok(var(22, "")), |_| {
        named = true;
        Ok(())
    }, || panic!("no game"));
    assert!(matches!(made, Ok(c) if c.raw() == 22));
    assert!(named);
    assert_eq!(m.get_var(VarName::Active, || panic!("no game")).map(|c| c.raw()), Some(22));

    let made = m.get_var_or_default_unknown("fresh", |_| Ok(String::new()), || Ok(var(23, "")), |_| Err(fail("cannot name")), || panic!("no game"));
    match made {
        Ok(_) => panic!("naming failed"),
        Err(e) => assert_eq!(e.message, "cannot name"),
    }
    let again = m.get_var_unknown("fresh", |id| Ok(if id.raw() == 23 { "fresh".to_string() } else { String::new() }), || panic!("no game"));
    assert_eq!(again.map(|c| c.raw()), Some(23));
}

#[test]
fn direct_mode_asks_the_game() {
    let mut m = manager_on(1, sample_entity());
    m.set_cache(true);
    assert!(!m.has_tag(CachedTag::EwClient, || Ok(false)));
    assert!(!m.has_tag(CachedTag::EwClient, || Err(fail("gone"))));
    assert_eq!(m.try_get_first_component(CachedComponent::LuaComponent, ComponentTag::NoTag, || Some(cid(77))).map(|c| c.raw()), Some(77));
    assert!(m.set_current_entity(eid(5), || panic!("nothing is loaded")).is_ok());
    assert_eq!(m.entity().raw(), 5);
    assert!(m.add_tag(CachedTag::SeedD, Ok(())).is_ok());
    m.set_cache(false);
    assert!(!m.has_tag(CachedTag::SeedD, || panic!("no game")));
}

#[test]
fn frame_counter() {
    let mut m = EntityManager::default();
    assert_eq!(m.frame_num(), -1);
    assert_eq!(m.entity().raw(), -1);
    assert!(m.init_frame_num(|| Err(fail("no frame"))).is_err());
    assert_eq!(m.frame_num(), -1);
    assert!(m.init_frame_num(|| Ok(100)).is_ok());
    assert_eq!(m.frame_num(), 100);
    assert!(m.init_frame_num(|| panic!("read once")).is_ok());
    assert_eq!(m.frame_num(), 101);
}

#[test]
fn stain_masks() {
    let mask = EntityID::get_current_stains(Some(Ok(vec![true, false, true, true])));
    assert!(matches!(mask, Ok(0b1101)));
    assert!(matches!(EntityID::get_current_stains(None), Ok(0)));
    assert!(EntityID::get_current_stains(Some(Err(fail("unreadable")))).is_err());
    let mut all = vec![false; 64];
    all[63] = true;
    assert!(matches!(EntityID::get_current_stains(Some(Ok(all))), Ok(m) if m == 1u64 << 63));

    let cleared = std::cell::RefCell::new(Vec::new());
    let r = EntityID::set_current_stains(0b0100, Some(Ok(vec![true, false, true, true])), 3, |i| {
        cleared.borrow_mut().push(i);
        Ok(())
    });
    assert!(r.is_ok());
    assert_eq!(*cleared.borrow(), vec![0]);
    let r = EntityID::set_current_stains(0, Some(Ok(vec![true, true])), 2, |i| if i == 1 { Err(fail("cannot")) } else { Ok(()) });
    assert!(r.is_err());
}

#[test]
fn manager_stains_use_the_status_component() {
    let status = EntityData::new("", vec![(CachedComponent::StatusEffectDataComponent, comp(50, true, ""))]);
    let m = manager_on(4, status);
    let r = m.get_current_stains(|id| { assert_eq!(id.raw(), 50); Ok(vec![false, true]) }, || panic!("no game"));
    assert!(matches!(r, Ok(0b10)));
    let cleared = std::cell::RefCell::new(Vec::new());
    let r = m.set_current_stains(0, |_| Ok(vec![false, true]), 64, |i| {
        cleared.borrow_mut().push(i);
        Ok(())
    }, || panic!("no game"));
    assert!(r.is_ok());
    assert_eq!(*cleared.borrow(), vec![1]);
    let bare = manager_on(5, EntityData::new("", vec![]));
    assert!(matches!(bare.get_current_stains(|_| panic!("no status"), || panic!("no game")), Ok(0)));
}

#[test]
fn removing_the_current_entity_reloads_it() {
    let mut m = manager_on(1, sample_entity());
    m.remove_current();
    let mut loaded = false;
    let r = m.set_current_entity(eid(2), || {
        loaded = true;
        Ok(EntityData::new("seed_d", vec![]))
    });
    assert!(r.is_ok());
    assert!(loaded);
    assert!(m.has_tag(CachedTag::SeedD, || panic!("no game")));
    let mut reloaded = false;
    let r = m.set_current_entity(eid(1), || {
        reloaded = true;
        Ok(EntityData::new("", vec![]))
    });
    assert!(r.is_ok());
    assert!(reloaded);
    assert!(!m.has_tag(CachedTag::EwClient, || panic!("no game")));
}

#[test]
fn data_file_names_are_read_once() {
    let mut files = Some(FileCache::new());
    let mut reads = 0;
    let names = get_file(&mut files, "data/a.xml", || {
        reads += 1;
        Ok("<Entity name=\"a\"><Var name=\"b\"/></Entity>".to_string())
    });
    match names {
        Ok(v) => assert_eq!(v, &["a".to_string(), "b".to_string()]),
        Err(_) => panic!("read failed"),
    }
    assert_eq!(reads, 1);
    match get_file(&mut files, "data/a.xml", || panic!("held already")) {
        Ok(v) => assert_eq!(v.len(), 2),
        Err(_) => panic!("held names lost"),
    }
    match get_file(&mut files, "data/b.xml", || Err(EngineError::new("missing".to_string()))) {
        Ok(_) => panic!("expected failure"),
        Err(e) => assert_eq!(e.message, "missing"),
    }
    match get_file(&mut files, "data/b.xml", || Ok("no names here".to_string())) {
        Ok(v) => assert!(v.is_empty()),
        Err(_) => panic!("read failed"),
    }
}

#[test]
fn manager_holds_a_file_cache() {
    let mut m = EntityManager::default();
    assert!(m.files.is_some());
    match get_file(&mut m.files, "data/c.xml", || Ok("name=\"x\"".to_string())) {
        Ok(v) => assert_eq!(v, &["x".to_string()]),
        Err(_) => panic!("read failed"),
    }
}
