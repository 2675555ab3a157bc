use entangled_worlds::components::{Component, WalletComponent};
use entangled_worlds::noita_types::{BitSet, CStr, CString, StdMap, StdString, TagManager};
use entangled_worlds::std_vec::StdVec;

#[test]
fn test_str() {
    let str;
    let str2;
    {
        str = CString::from("test");
        str2 = CString::from_str("test\0");
        assert_eq!(str.to_string(), "test");
        assert_eq!(str2.to_string(), "test")
    }
    assert_eq!(str.to_string(), "test");
    assert_eq!(str2.to_string(), "test");
    assert_eq!(WalletComponent::name(), WalletComponent::c_name().to_string());
    assert_eq!(WalletComponent::name(), WalletComponent::std_name().to_string());
}

#[test]
fn test_cstring() {
    let a = CString::from_str("test");
    let b = CString::from_str("test");
    let c = CString::from_str("testb");
    assert_eq!(a, b);
    assert_ne!(a, c);
    assert_ne!(c, a);
}

#[test]
fn std_string_inline_and_separate() {
    let short = StdString::from("hello");
    assert_eq!(short.to_string(), "hello");
    assert_eq!(short.get(5), 0);
    let long = StdString::from("a rather long string");
    assert_eq!(long.to_string(), "a rather long string");
    assert_eq!(long.get(2), b'r');
    assert!(short.text_eq(&StdString::from_str("hello")));
    assert!(!short.text_eq(&long));
    assert!(short.key_eq(&StdString::from("hello")));
}

#[test]
fn cstr_stops_at_nul() {
    let s = CStr([b'a', b'b', 0, b'c']);
    assert_eq!(s.to_string(), "ab");
}

#[test]
fn test_stdvec() {
    let mut v = StdVec::<u8>::null();
    assert_eq!(v.capacity(), 0);
    assert_eq!(v.len(), 0);
    v.reserve(1);
    assert_eq!(v.capacity(), 1);
    assert_eq!(v.len(), 0);
    let mut v = StdVec::<usize>::new();
    v.push(1usize);
    v.push(2usize);
    v.push(3usize);
    v.push(4usize);
    v.push(5usize);
    for (i, l) in std::hint::black_box(&v).iter().iter().enumerate() {
        assert_eq!(i + 1, *l);
    }
    assert_eq!(v.capacity(), 8);
    std::hint::black_box(v);
}

#[test]
fn test_stdvec_growth() {
    let v = StdVec::<u8>::null();
    assert_eq!(v.capacity(), 0);
    assert_eq!(v.len(), 0);
    let mut v = StdVec::<usize>::new();
    assert_eq!(v.capacity(), 4);
    v.push(1usize);
    v.push(2usize);
    v.push(3usize);
    v.push(4usize);
    assert_eq!(v.capacity(), 4);
    v.push(5usize);
    assert_eq!(v.capacity(), 8);
    assert_eq!(v.iter(), &[1, 2, 3, 4, 5]);
    v.insert(0, 0);
    assert_eq!(v.remove(1), 1);
    assert_eq!(v.pop(), Some(5));
    assert_eq!(v.iter(), &[0, 2, 3, 4]);
    assert_eq!(v.get(9), None);
    assert_eq!(v.last(), Some(&4));
}

#[test]
fn bitsets_and_tags() {
    let mut tag_indices = StdMap::new();
    tag_indices.insert(StdString::from("enemy"), 3u8);
    let mut manager = TagManager {
        tags: StdVec::new(),
        tag_indices,
        max_tag_count: 8,
        name: StdString::from("tags"),
    };
    let mut bits: BitSet<8> = BitSet::default();
    assert!(!bits.has_tag(&manager, &StdString::from("enemy")));
    bits.add_tag(&mut manager, &StdString::from("enemy"));
    assert!(bits.has_tag(&manager, &StdString::from("enemy")));
    assert!(!bits.has_tag(&manager, &StdString::from("boss")));
    assert_eq!(bits.get_tags(&manager).len(), 1);
    assert!(bits.get(3));
    assert_eq!(bits.count(), 1);
    bits.set(200, true);
    assert_eq!(bits.count(), 2);
    bits.remove_tag(&manager, &StdString::from("enemy"));
    assert!(!bits.get(3));
    let mut wide: BitSet<16> = BitSet::default();
    wide.set(511, true);
    assert!(wide.get(511));
    assert_eq!(wide.count(), 1);
}

#[test]
fn map_keys_and_values() {
    let mut m = StdMap::new();
    m.insert(7u32, 'x');
    assert_eq!(m.iter_keys(), vec![&7u32]);
    assert_eq!(m.iter_values(), vec![&'x']);
    let empty: StdMap<u32, char> = StdMap::new();
    assert!(empty.iter_keys().is_empty());
    assert!(empty.iter_values().is_empty());
}
