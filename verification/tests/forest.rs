use wowsunpack::models::forest::parse_forest;
use wowsunpack::models::forest::parse_layer_instances;
use wowsunpack::models::forest::read_layer;
use wowsunpack::models::forest::ForestError;

/// Two species, one plant of each in the first layer.
fn sample() -> Vec<u8> {
    let mut b = vec![0u8; 0x400];
    b[0..8].copy_from_slice(&2u64.to_le_bytes());
    b[8..16].copy_from_slice(&0x300u64.to_le_bytes());
    // Layer 0.
    b[0x10..0x18].copy_from_slice(&(0x280i64 - 0x10).to_le_bytes());
    b[0x18..0x1C].copy_from_slice(&2u32.to_le_bytes());
    b[0x20..0x24].copy_from_slice(&1u32.to_le_bytes());
    b[0x24..0x28].copy_from_slice(&1u32.to_le_bytes());
    b[0x28..0x2C].copy_from_slice(&0u32.to_le_bytes());
    b[0x2C..0x30].copy_from_slice(&1u32.to_le_bytes());
    // Plants.
    for (i, v) in [1.5f32, 2.5, 3.5, 0.0, 4.5, 5.5, 6.5, 0.0].iter().enumerate() {
        b[0x280 + 4 * i..0x284 + 4 * i].copy_from_slice(&v.to_le_bytes());
    }
    // Names.
    b[0x300..0x308].copy_from_slice(&5u64.to_le_bytes());
    b[0x308..0x310].copy_from_slice(&0x40i64.to_le_bytes());
    b[0x310..0x318].copy_from_slice(&4u64.to_le_bytes());
    b[0x318..0x320].copy_from_slice(&0x40i64.to_le_bytes());
    b[0x340..0x345].copy_from_slice(b"palm\0");
    b[0x350..0x354].copy_from_slice(b"oak\0");
    b
}

#[test]
fn plants_follow_their_species() {
    let forest = parse_forest(&sample()).unwrap();
    assert_eq!(forest.species, ["palm", "oak"]);
    let plants = &forest.layers[0];
    assert_eq!(plants.len(), 2);
    assert_eq!(plants[0].species_index, 0);
    assert_eq!(f32::from_bits(plants[0].x), 4.5);
    assert_eq!(plants[1].species_index, 1);
    assert_eq!(f32::from_bits(plants[1].z), 3.5);
    assert!(forest.layers[1].is_empty());
}

#[test]
fn layers_are_read_for_any_number_of_species() {
    let mut b = vec![0u8; 0x4000];
    b[0x10..0x18].copy_from_slice(&(0x3000i64 - 0x10).to_le_bytes());
    b[0x18..0x1C].copy_from_slice(&1u32.to_le_bytes());
    // The plant of the last of 1200 species.
    let last = 0x20 + 8 * 1199;
    b[last + 4..last + 8].copy_from_slice(&1u32.to_le_bytes());
    b[0x3000..0x3004].copy_from_slice(&7.5f32.to_le_bytes());
    let (start, count, ranges) = read_layer(&b, 0, 1200).unwrap();
    assert_eq!((start, count, ranges.len(), ranges[1199]), (0x3000, 1, 1200, (0, 1)));
    let plants = parse_layer_instances(&b, 0, 1200).unwrap();
    assert_eq!(plants.len(), 1);
    assert_eq!((plants[0].species_index, f32::from_bits(plants[0].x)), (1199, 7.5));
    // A fifth layer would follow the others.
    assert!(parse_layer_instances(&b, 4, 1).unwrap().is_empty());
    assert!(matches!(
        parse_layer_instances(&b, 0, 5000),
        Err(ForestError::DataTooShort { offset: 0x10, need: 40032, have: 0x4000 })
    ));
}

#[test]
fn short_forest_is_refused() {
    let e = parse_forest(&[0u8; 4]).unwrap_err();
    assert!(matches!(e, ForestError::DataTooShort { offset: 0, have: 4, .. }));
    assert_eq!(
        ForestError::DataTooShort { offset: 0xA0, need: 24, have: 4 }.message(),
        "data too short: need 24 bytes at offset 0xA0, have 4"
    );
}

#[test]
fn too_many_species_are_refused() {
    let mut b = sample();
    b[0..8].copy_from_slice(&1001u64.to_le_bytes());
    assert!(matches!(parse_forest(&b), Err(ForestError::ParseError(_))));
    assert_eq!(ForestError::ParseError("x".to_string()).message(), "parse error: x");
}

#[test]
fn layer_outside_the_file_is_refused() {
    let mut b = sample();
    b[0x18..0x1C].copy_from_slice(&1000u32.to_le_bytes());
    let e = parse_forest(&b).unwrap_err();
    assert_eq!(
        e.message(),
        "parse error: Primary layer buffer out of bounds: abs=0x280 count=1000 file_len=1024"
    );
}
