use entangled_worlds::world_sync::{ChunkCoord, NoitaWorldUpdate, Pixel, PixelFlags, PixelRun, PixelRunner};

#[test]
fn test() {
    let p = Pixel::new(0, PixelFlags::Unknown);
    assert_eq!(p.mat(), 0);
    assert_eq!(p.flags(), PixelFlags::Unknown);
    let p = Pixel::new(0, PixelFlags::Normal);
    assert_eq!(p.mat(), 0);
    assert_eq!(p.flags(), PixelFlags::Normal);
    let p = Pixel::new(15, PixelFlags::Unknown);
    assert_eq!(p.mat(), 15);
    assert_eq!(p.flags(), PixelFlags::Unknown);
    let p = Pixel::new(15, PixelFlags::Normal);
    assert_eq!(p.mat(), 15);
    assert_eq!(p.flags(), PixelFlags::Normal);
}

#[test]
fn compress_groups_equal_neighbours() {
    let a = Pixel::new(1, PixelFlags::Normal);
    let b = Pixel::new(2, PixelFlags::Abnormal);
    let runs = PixelRunner::compress(&[a, a, b, b, b, a]);
    assert_eq!(runs.len(), 3);
    assert_eq!((runs[0].length, runs[0].data), (2, a));
    assert_eq!((runs[1].length, runs[1].data), (3, b));
    assert_eq!((runs[2].length, runs[2].data), (1, a));
    assert!(PixelRunner::<Pixel>::compress(&[]).is_empty());
}

#[test]
fn update_expands_its_runs() {
    let a = Pixel::new(0, PixelFlags::Normal);
    let b = Pixel::new(7, PixelFlags::Normal);
    let update = NoitaWorldUpdate {
        coord: ChunkCoord(1, 2),
        pixel_runs: vec![PixelRun { length: 2, data: a }, PixelRun { length: 1, data: b }],
    };
    assert_eq!(update.iter_pixels(), vec![a, a, b]);
    assert!(!update.is_all_empty_pixels());
    let air = NoitaWorldUpdate { coord: ChunkCoord(0, 0), pixel_runs: vec![PixelRun { length: 9, data: a }] };
    assert!(air.is_all_empty_pixels());
}

#[test]
fn packed_pixel_bits() {
    let p = Pixel::new(0x0ABC, PixelFlags::Abnormal);
    assert_eq!(p.mat(), 0x0ABC);
    assert_eq!(p.flags(), PixelFlags::Abnormal);
    assert!(Pixel::nil().is_air());
    assert_eq!(Pixel::nil().flags(), PixelFlags::Abnormal);
    assert_eq!(PixelFlags::default(), PixelFlags::Unknown);
    assert_eq!(PixelFlags::Unknown.bits(), 15);
}
