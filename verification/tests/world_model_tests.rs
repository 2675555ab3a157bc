use std::sync::Arc;

use entangled_worlds::chunk::{Chunk, CompactPixel, Pixel, PixelFlags, CHUNK_SIZE};
use entangled_worlds::encoding::{Header, NoitaWorldUpdate, PixelRun, RawPixel};
use entangled_worlds::world_model::{
    ChunkCoord, ChunkCoordSet, ChunkData, ChunkDelta, WorldModel, CHUNK_AREA,
};

fn px(v: u16) -> CompactPixel {
    CompactPixel::new(v).unwrap()
}

#[test]
fn over_long_runs_are_clamped() {
    let data = ChunkData {
        runs: vec![
            PixelRun {
                length: u32::MAX,
                data: px(42),
            },
            PixelRun {
                length: u32::MAX,
                data: px(43),
            },
        ],
    };
    let mut chunk = Chunk::default();
    data.apply_to_chunk(&mut chunk);

    let mut model = WorldModel::default();
    model.apply_chunk_delta(&ChunkDelta {
        chunk_coord: ChunkCoord(0, 0),
        runs: Arc::new(vec![PixelRun {
            length: u32::MAX,
            data: Some(px(42)),
        }]),
    });

    let mut target = ChunkData {
        runs: vec![PixelRun {
            length: (CHUNK_SIZE * CHUNK_SIZE) as u32,
            data: px(7),
        }],
    };
    target.apply_delta(data);
}

#[test]
fn noita_update_respects_declared_rect() {
    let update = NoitaWorldUpdate {
        header: Header {
            x: 0,
            y: 0,
            w: 7,
            h: 7,
            run_count: 1,
        },
        runs: vec![PixelRun {
            length: 4096,
            data: RawPixel {
                material: 1,
                flags: 0,
            },
        }],
    };
    let mut model = WorldModel::default();
    let mut changed = ChunkCoordSet::new();
    model.apply_noita_update(&update, &mut changed);
    let updated = model.updated_chunks();
    let all_origin = (0..updated.len()).all(|i| updated.get(i) == ChunkCoord(0, 0));
    assert!(
        all_origin,
        "update escaped its declared rectangle: {:?}",
        (0..updated.len()).map(|i| updated.get(i)).collect::<Vec<_>>()
    );
}

const UNKNOWN: u16 = u16::MAX;

fn compact(material: u16) -> CompactPixel {
    Pixel {
        flags: PixelFlags::Normal,
        material,
    }
    .to_compact()
}

fn materials(update: &NoitaWorldUpdate) -> Vec<u16> {
    assert_eq!(update.header.w, (CHUNK_SIZE - 1) as u8);
    assert_eq!(update.header.h, (CHUNK_SIZE - 1) as u8);
    let mut out = Vec::new();
    for run in &update.runs {
        for _ in 0..run.length {
            out.push(run.data.material);
        }
    }
    assert_eq!(out.len(), CHUNK_AREA);
    out
}

fn only_update(model: &WorldModel) -> Vec<u16> {
    let updates = model.get_all_noita_updates();
    assert_eq!(updates.len(), 1, "expected exactly one chunk update");
    materials(&updates[0])
}

#[test]
fn delta_emits_unknown_outside_the_delta() {
    let mut model = WorldModel::default();
    let coord = ChunkCoord(0, 0);
    model.apply_chunk_data(coord, &ChunkData::new(5));
    model.reset_change_tracking();

    model.apply_chunk_delta(&ChunkDelta {
        chunk_coord: coord,
        runs: Arc::new(vec![
            PixelRun {
                length: 3,
                data: Some(compact(7)),
            },
            PixelRun {
                length: 1,
                data: Some(compact(5)),
            },
            PixelRun {
                length: (CHUNK_AREA - 4) as u32,
                data: None,
            },
        ]),
    });

    let got = only_update(&model);
    assert_eq!(&got[..4], &[7, 7, 7, 5]);
    assert!(
        got[4..].iter().all(|m| *m == UNKNOWN),
        "pixels outside the delta must be Unknown"
    );
    assert_eq!(model.chunk(&coord).unwrap().pixel(100).material, 5);
}

#[test]
fn chunk_data_emits_the_full_chunk() {
    let mut model = WorldModel::default();
    model.apply_chunk_data(ChunkCoord(1, -2), &ChunkData::new(5));

    assert!(only_update(&model).iter().all(|m| *m == 5));
}

#[test]
fn delta_after_chunk_data_still_emits_the_full_chunk() {
    let mut model = WorldModel::default();
    let coord = ChunkCoord(0, 0);
    model.apply_chunk_data(coord, &ChunkData::new(5));
    model.apply_chunk_delta(&ChunkDelta {
        chunk_coord: coord,
        runs: Arc::new(vec![
            PixelRun {
                length: 2,
                data: Some(compact(7)),
            },
            PixelRun {
                length: (CHUNK_AREA - 2) as u32,
                data: None,
            },
        ]),
    });

    let got = only_update(&model);
    assert_eq!(&got[..2], &[7, 7]);
    assert!(
        got[2..].iter().all(|m| *m == 5),
        "chunk was not written whole"
    );
}

#[test]
fn emission_state_is_cleared() {
    let mut model = WorldModel::default();
    let coord = ChunkCoord(0, 0);
    model.apply_chunk_data(coord, &ChunkData::new(5));
    model.reset_change_tracking();
    assert!(model.get_all_noita_updates().is_empty());

    model.apply_chunk_data(coord, &ChunkData::new(5));
    model.forget_chunk(coord);
    assert!(model.get_all_noita_updates().is_empty());
    assert!(model.full_write_chunks().is_empty());
}

#[test]
fn noita_update_writes_pixels_and_reports_changed_chunks() {
    let update = NoitaWorldUpdate {
        header: Header { x: 126, y: 0, w: 3, h: 0, run_count: 1 },
        runs: vec![PixelRun { length: 4, data: RawPixel { material: 9, flags: 0 } }],
    };
    let mut model = WorldModel::default();
    let mut changed = ChunkCoordSet::new();
    model.apply_noita_update(&update, &mut changed);
    assert_eq!(model.chunk(&ChunkCoord(0, 0)).unwrap().pixel(126).material, 9);
    assert_eq!(model.chunk(&ChunkCoord(0, 0)).unwrap().pixel(127).material, 9);
    assert_eq!(model.chunk(&ChunkCoord(1, 0)).unwrap().pixel(0).material, 9);
    assert_eq!(model.chunk(&ChunkCoord(1, 0)).unwrap().pixel(1).material, 9);
    assert_eq!(model.updated_chunks().len(), 2);
    assert!(model.updated_chunks().contains(&ChunkCoord(1, 0)));
}

#[test]
fn chunk_data_round_trips_through_a_model() {
    let mut model = WorldModel::default();
    let coord = ChunkCoord(3, 4);
    model.apply_chunk_data(coord, &ChunkData::make_random());
    let data = model.get_chunk_data(coord).unwrap();
    let mut chunk = Chunk::default();
    data.apply_to_chunk(&mut chunk);
    assert_eq!(chunk.pixel(513).material, 1);
    assert_eq!(chunk.pixel(511).material, 511);
    assert!(model.get_chunk_data(ChunkCoord(9, 9)).is_none());
}

fn delta_pixels(d: &ChunkDelta) -> Vec<Option<CompactPixel>> {
    let mut out = Vec::new();
    for run in d.runs.iter() {
        for _ in 0..run.length {
            out.push(run.data);
        }
    }
    out
}

#[test]
fn chunk_delta_reports_marked_pixels() {
    let mut model = WorldModel::default();
    let coord = ChunkCoord(2, -1);
    model.apply_chunk_data(coord, &ChunkData::make_random());
    let whole = model.get_chunk_delta(coord, true).unwrap();
    assert_eq!(whole.chunk_coord, coord);
    let pixels = delta_pixels(&whole);
    assert_eq!(pixels.len(), CHUNK_AREA);
    assert!(pixels.iter().all(|p| p.is_some()));
    assert!(model.get_chunk_delta(ChunkCoord(9, 9), true).is_none());
    let marked = delta_pixels(&model.get_chunk_delta(coord, false).unwrap());
    assert_eq!(marked.len(), CHUNK_AREA);
}

#[test]
fn rewriting_the_same_pixel_still_counts_as_written() {
    let update = NoitaWorldUpdate {
        header: Header { x: 5, y: 5, w: 0, h: 0, run_count: 1 },
        runs: vec![PixelRun { length: 1, data: RawPixel { material: 3, flags: 0 } }],
    };
    let mut model = WorldModel::default();
    let mut changed = ChunkCoordSet::new();
    model.apply_noita_update(&update, &mut changed);
    model.reset_change_tracking();
    assert_eq!(model.updated_chunks().len(), 0);
    changed.insert(ChunkCoord(0, 0));
    changed.insert(ChunkCoord(1, 1));
    model.apply_noita_update(&update, &mut changed);
    assert_eq!(model.updated_chunks().len(), 1);
    assert!(model.updated_chunks().contains(&ChunkCoord(0, 0)));
    assert!(!changed.contains(&ChunkCoord(0, 0)));
    assert!(changed.contains(&ChunkCoord(1, 1)));
}
