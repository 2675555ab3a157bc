use entangled_worlds::chunk::{
    Changed, CompactPixel, Pixel, PixelFlags, CHUNK_SIZE, CHUNK_SQUARE, MAX_MATERIAL,
};

#[test]
fn test_changed() {
    let tmr = std::time::Instant::now();
    for _ in 0..8192 {
        let mut chunk = Changed([0u128; CHUNK_SIZE]);
        for i in 0..CHUNK_SQUARE {
            std::hint::black_box(chunk.get(i));
            chunk.set(CHUNK_SQUARE - i - 1);
        }
        std::hint::black_box(chunk);
    }
    println!("u128 {}", tmr.elapsed().as_nanos());
    let tmr = std::time::Instant::now();
    for _ in 0..8192 {
        let mut chunk = Changed([false; CHUNK_SQUARE]);
        for i in 0..CHUNK_SQUARE {
            std::hint::black_box(chunk.get(i));
            chunk.set(CHUNK_SQUARE - i - 1);
        }
        std::hint::black_box(chunk);
    }
    println!("bool {}", tmr.elapsed().as_nanos())
}

#[test]
fn compact_pixel_round_trip() {
    for material in 0..=u16::MAX {
        for flags in [PixelFlags::Normal, PixelFlags::Fluid] {
            let px = Pixel { flags, material };
            let round = Pixel::from_compact(px.to_compact());
            if material < MAX_MATERIAL {
                assert_eq!(round, px, "material {material} with {flags:?}");
            } else {
                assert_eq!(
                    round.flags,
                    PixelFlags::Unknown,
                    "out-of-range material {material} should degrade to Unknown, not alias"
                );
            }
        }
    }
    let unknown = Pixel {
        flags: PixelFlags::Unknown,
        material: 0,
    };
    assert_eq!(Pixel::from_compact(unknown.to_compact()), unknown);
}

#[test]
fn compact_values_are_exact() {
    let p = Pixel { flags: PixelFlags::Normal, material: 5 };
    assert_eq!(p.to_compact().raw(), 12);
    let f = Pixel { flags: PixelFlags::Fluid, material: 5 };
    assert_eq!(f.to_compact().raw(), 13);
    assert_eq!(CompactPixel::unknown().raw(), 4095);
    assert!(CompactPixel::new(0).is_none());
    assert_eq!(CompactPixel::new(7).unwrap().raw(), 7);
}

#[test]
fn changed_marks_set_only_their_pixel() {
    let mut c = Changed([0u128; CHUNK_SIZE]);
    c.set(200);
    assert!(c.get(200));
    assert!(!c.get(199));
    assert!(!c.get(201));
    let mut b = Changed([false; CHUNK_SQUARE]);
    b.set(0);
    assert!(b.get(0));
    assert!(!b.get(1));
}
