use wowsunpack::models::terrain::parse_terrain;
use wowsunpack::models::terrain::TerrainError;
use wowsunpack::models::terrain::TERRAIN_MAGIC;

/// A height map of two by two chunks with an edge of seven poles.
fn synthetic() -> Vec<u8> {
    let dim = 2usize;
    let edge = 7usize;
    let w = dim * edge;
    let f = |g_signed: i64| g_signed as f32;
    let global = |b: usize, p: usize| (b * 4 + p) as i64 - 1;
    let mut mosaic = vec![0f32; w * w];
    for bz in 0..dim {
        for bx in 0..dim {
            for pz in 0..edge {
                for px in 0..edge {
                    let gv = f(global(bz, pz)) * 100.0 + f(global(bx, px));
                    mosaic[(bz * edge + pz) * w + bx * edge + px] = gv;
                }
            }
        }
    }
    for pz in 0..edge {
        for px in 0..edge {
            mosaic[(edge + pz) * w + edge + px] = 5.0;
        }
    }
    let mut out = Vec::new();
    out.extend_from_slice(&TERRAIN_MAGIC.to_le_bytes());
    out.extend_from_slice(&(w as u32).to_le_bytes());
    out.extend_from_slice(&(w as u32).to_le_bytes());
    out.extend_from_slice(&(((edge as u32) << 16) | dim as u32).to_le_bytes());
    let gmin = mosaic.iter().cloned().fold(f32::INFINITY, f32::min);
    let gmax = mosaic.iter().cloned().fold(f32::NEG_INFINITY, f32::max);
    out.extend_from_slice(&gmin.to_le_bytes());
    out.extend_from_slice(&gmax.to_le_bytes());
    for bz in 0..dim {
        for bx in 0..dim {
            let mut bmin = f32::INFINITY;
            let mut bmax = f32::NEG_INFINITY;
            for pz in 0..edge {
                for px in 0..edge {
                    let v = mosaic[(bz * edge + pz) * w + bx * edge + px];
                    bmin = bmin.min(v);
                    bmax = bmax.max(v);
                }
            }
            out.extend_from_slice(&bmin.to_le_bytes());
            out.extend_from_slice(&bmax.to_le_bytes());
        }
    }
    let mut i = 0usize;
    while i < mosaic.len() {
        let v = mosaic[i].to_bits();
        let mut run = 1usize;
        while i + run < mosaic.len() && mosaic[i + run].to_bits() == v {
            run += 1;
        }
        if run >= 2 {
            out.extend_from_slice(&v.to_le_bytes());
            out.extend_from_slice(&v.to_le_bytes());
            out.extend_from_slice(&(run as u32).to_le_bytes());
        } else {
            out.extend_from_slice(&v.to_le_bytes());
        }
        i += run;
    }
    out
}

#[test]
fn parses_synthetic_uniform_grid() {
    let data = synthetic();
    let t = parse_terrain(&data).expect("parse");
    assert_eq!(t.chunks_per_axis, 2);
    assert_eq!(t.chunk_grid_edge, 7);
    assert_eq!(t.width, 9);
    assert_eq!(t.height, 9);
    assert_eq!(t.heightmap.len(), 81);
    assert_eq!(t.minmax_mismatches, 0);
    for gz in 0..9usize {
        for gx in 0..9usize {
            let v = f32::from_bits(t.heightmap[gz * 9 + gx]);
            let from_const = gx >= 4 && gz >= 4;
            if from_const {
                assert_eq!(v, 5.0, "pole ({gx},{gz})");
            } else {
                assert_eq!(v, gz as f32 * 100.0 + gx as f32, "pole ({gx},{gz})");
            }
        }
    }
}

#[test]
fn rejects_bad_magic() {
    let mut data = synthetic();
    data[0] = 0xFF;
    assert!(parse_terrain(&data).is_err());
}

#[test]
fn rejects_truncated_stream() {
    let data = synthetic();
    assert!(parse_terrain(&data[..data.len() - 8]).is_err());
}

#[test]
fn errors_tell_what_is_wrong() {
    assert_eq!(parse_terrain(&[0u8; 10]).unwrap_err(), TerrainError::DataTooShort { need: 24, have: 10 });
    let mut data = synthetic();
    data[0] = 0xFF;
    let e = parse_terrain(&data).unwrap_err();
    assert_eq!(e, TerrainError::BadMagic { got: 0x0062_72FF });
    assert_eq!(e.message(), "bad magic: expected 0x00627274, got 0x006272FF");
    let mut data = synthetic();
    data[4] = 15;
    let e = parse_terrain(&data).unwrap_err();
    assert_eq!(e, TerrainError::BadHeader { w: 15, h: 14, chunks: 2, edge: 7 });
    assert_eq!(e.message(), "inconsistent header: 15x14 vs 2 chunks of edge 7");
    let data = synthetic();
    let e = parse_terrain(&data[..data.len() - 8]).unwrap_err();
    assert!(matches!(e, TerrainError::SizeMismatch { expected: 196, .. }));
    assert_eq!(
        TerrainError::SizeMismatch { decoded: 5, expected: 196 }.message(),
        "RLE decode produced 5 values, expected exactly 196 (width*height)"
    );
    assert_eq!(
        TerrainError::DataTooShort { need: 24, have: 10 }.message(),
        "data too short: need 24 bytes, have 10"
    );
}

#[test]
fn wrong_chunk_extremes_are_counted() {
    let mut data = synthetic();
    let at = 24;
    data[at..at + 4].copy_from_slice(&1.0e6f32.to_le_bytes());
    let t = parse_terrain(&data).unwrap();
    assert_eq!(t.minmax_mismatches, 1);
}
