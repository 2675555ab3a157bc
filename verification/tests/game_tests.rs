use entangled_worlds::asset::{AssetConfig, AssetError, AssetInfo};
use entangled_worlds::component_buffer::{ComponentBuffer, EntityManager};
use entangled_worlds::std_vec::StdVec;
use entangled_worlds::game_layout::ParticleWorldState;
use entangled_worlds::heap::Ptr;
use entangled_worlds::settings::{GameMode, LocalHealthMode};

#[test]
fn components_are_chained_per_entity() {
    let mut b = ComponentBuffer::default();
    assert_eq!(b.create(2, 0x100, 0x1000), 0);
    assert_eq!(b.create(0, 0x200, 0x2000), 1);
    assert_eq!(b.create(2, 0x100, 0x3000), 2);
    assert_eq!(b.get_first(2), Some(0x1000));
    assert_eq!(b.get_first(0), Some(0x2000));
    assert_eq!(b.get_first(1), None);
    assert_eq!(b.get_first(9), None);
    let mut it = b.iter_components(2);
    assert_eq!(it.next(), Some(0x1000));
    assert_eq!(it.next(), Some(0x3000));
    assert_eq!(it.next(), None);
    assert_eq!(b.component_list.iter(), &[0x1000, 0x2000, 0x3000]);
    assert_eq!(b.entities.iter(), &[0x100, 0x200, 0x100]);
    assert_eq!(b.prev.get(2), Some(&0));
    assert_eq!(b.iter_every_component(), vec![0x1000, 0x2000, 0x3000]);
    assert!(ComponentBuffer::default().iter_every_component().is_empty());
}

#[test]
fn chunk_shift_wraps_at_512() {
    let w = ParticleWorldState { world_ptr: 0, material_count: 0 };
    assert_eq!(w.get_shift::<128>(1, 3), (128, 384));
    assert_eq!(w.get_shift::<128>(-1, 4), (384, 0));
}

#[test]
fn assets_get_names() {
    let info = AssetInfo::new("data/a.png".to_string()).with_name("a".to_string());
    let err = AssetError::FormatNotSpecified(AssetInfo::new("b.png".to_string()));
    match err.with_name("b".to_string()) {
        AssetError::FormatNotSpecified(_) => {}
        _ => panic!("variant changed"),
    }
    let mut info2 = info;
    info2.set_name("c".to_string());
    let c = AssetConfig::default();
    assert!(c.auto_fetch && c.do_parse);
}

#[test]
fn pointers_and_modes() {
    let p: Ptr<u32> = Ptr::null();
    assert!(p.is_null());
    assert_eq!(p.cast::<u8>().as_raw(), 0);
    assert_eq!(GameMode::LocalHealth(LocalHealthMode::PermaDeath).to_string(), "LocalPermadeath");
    assert_eq!(GameMode::SharedHealth.to_string(), "Shared");
}

#[test]
fn entities_take_freed_entries_first() {
    let mut free = StdVec::new();
    free.push(0usize);
    let mut entities = StdVec::new();
    entities.push(0x10usize);
    let mut m = EntityManager {
        vtable: 0,
        max_entity_id: 5,
        free_ids: free,
        entities,
        entity_buckets: StdVec::new(),
        component_buffers: StdVec::new(),
    };
    assert_eq!(m.create(0x20), (6, 0));
    assert_eq!(m.create(0x30), (7, 1));
    assert_eq!(m.entities.iter(), &[0x20, 0x30]);
}

#[test]
fn component_walks_run_backwards_along_prev_links() {
    let mut b = ComponentBuffer::default();
    b.create(2, 0x100, 0x1000);
    b.create(0, 0x200, 0x2000);
    b.create(2, 0x100, 0x3000);
    let mut back = b.iter_components(2);
    assert_eq!(back.next_back(), Some(0x1000));
    assert_eq!(back.next_back(), None);
    let mut mid = b.iter_components(2);
    assert_eq!(mid.next(), Some(0x1000));
    assert_eq!(mid.next_back(), Some(0x3000));
    assert_eq!(mid.next_back(), Some(0x1000));
    assert_eq!(mid.next_back(), None);
}

#[test]
fn entity_tables_skip_null_entries() {
    let mut entities = StdVec::new();
    entities.push(0x10usize);
    entities.push(0usize);
    entities.push(0x30usize);
    let mut bucket = StdVec::new();
    bucket.push(0usize);
    bucket.push(0x30usize);
    let mut buckets = StdVec::new();
    buckets.push(StdVec::new());
    buckets.push(bucket);
    let mut buffers = StdVec::new();
    buffers.push(0usize);
    buffers.push(0x500usize);
    let m = EntityManager {
        vtable: 0,
        max_entity_id: 3,
        free_ids: StdVec::new(),
        entities,
        entity_buckets: buckets,
        component_buffers: buffers,
    };
    assert_eq!(m.iter_entities(), vec![0x10, 0x30]);
    assert_eq!(m.iter_component_buffers(), vec![0x500]);
    let mut tag_indices = entangled_worlds::noita_types::StdMap::new();
    tag_indices.insert(entangled_worlds::noita_types::StdString::from("enemy"), 1u16);
    let manager = entangled_worlds::noita_types::TagManager {
        tags: StdVec::new(),
        tag_indices,
        max_tag_count: 8,
        name: entangled_worlds::noita_types::StdString::from("tags"),
    };
    let enemy = entangled_worlds::noita_types::StdString::from("enemy");
    assert_eq!(m.get_entities_with_tag(&enemy, &manager), vec![0x30]);
    assert_eq!(m.iter_entities_with_tag(&manager, &enemy), vec![0x30]);
}

#[test]
fn test_com_create() {
    let mut em = EntityManager {
        vtable: 0,
        max_entity_id: 0,
        free_ids: StdVec::new(),
        entities: StdVec::new(),
        entity_buckets: StdVec::new(),
        component_buffers: StdVec::new(),
    };
    let mut buffer = ComponentBuffer::default();
    em.component_buffers.push(0x5000usize);
    let (id, entry) = em.create(0x100);
    buffer.create(entry, 0x100, 0x1000);
    println!("{:?}", buffer.component_list.iter());
    buffer.create(entry, 0x100, 0x2000);
    println!("{:?} {:?}", id, buffer.component_list.iter());
}
