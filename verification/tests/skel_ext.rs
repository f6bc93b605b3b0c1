use wowsunpack::models::skel_ext::dedupe_by_position;
use wowsunpack::models::skel_ext::is_affine;
use wowsunpack::models::skel_ext::negate_z_transform;
use wowsunpack::models::skel_ext::parse_records;
use wowsunpack::models::skel_ext::parse_skel_ext;
use wowsunpack::models::skel_ext::read_u16_le;
use wowsunpack::models::skel_ext::read_u32_le;
use wowsunpack::models::skel_ext::read_u64_le;
use wowsunpack::models::skel_ext::to_metric_glft;
use wowsunpack::models::skel_ext::SkelExtError;

fn bits(m: [f32; 16]) -> [u32; 16] {
    m.map(f32::to_bits)
}

#[test]
fn empty_buffer_errors() {
    assert!(matches!(
        parse_skel_ext(&[]),
        Err(SkelExtError::TooShort { .. })
    ));
}

#[test]
fn garbage_buffer_has_no_records() {
    let buf = vec![0u8; 1024];
    let res = parse_skel_ext(&buf);
    assert!(matches!(res, Err(SkelExtError::NoRecords)));
}

#[test]
fn is_affine_rejects_bad_bottom_row() {
    let identity = [
        1.0, 0.0, 0.0, 0.0, 0.0, 1.0, 0.0, 0.0, 0.0, 0.0, 1.0, 0.0, 0.0, 0.0, 0.0, 1.0,
    ];
    assert!(is_affine(&bits(identity)));
    let mut bad = identity;
    bad[15] = 0.5;
    assert!(!is_affine(&bits(bad)));
    let mut bad2 = identity;
    bad2[3] = 0.5;
    assert!(!is_affine(&bits(bad2)));
}

#[test]
fn negate_z_transform_is_involution_on_rotation_free() {
    let m = [
        1.0, 0.0, 0.0, 0.0, 0.0, 1.0, 0.0, 0.0, 0.0, 0.0, 1.0, 0.0, 1.0, 2.0, 3.0, 1.0,
    ];
    let flipped = negate_z_transform(bits(m));
    assert_eq!(f32::from_bits(flipped[14]), -3.0);
    assert_eq!(f32::from_bits(flipped[10]), 1.0);
    assert_eq!(negate_z_transform(flipped), bits(m));
}

#[test]
fn errors_have_messages() {
    assert_eq!(
        parse_skel_ext(&[1, 2]).unwrap_err().message(),
        "skel_ext file too short (2 bytes, need >= 32)"
    );
    assert_eq!(SkelExtError::NoRecords.message(), "no valid records found in header");
}

#[test]
fn fields_outside_the_buffer_are_absent() {
    let b = [1u8, 2, 3, 4, 5, 6, 7, 8];
    assert_eq!(read_u16_le(&b, 6), Some(0x0807));
    assert_eq!(read_u16_le(&b, 7), None);
    assert_eq!(read_u32_le(&b, 4), Some(0x0807_0605));
    assert_eq!(read_u32_le(&b, 5), None);
    assert_eq!(read_u64_le(&b, 0), Some(0x0807_0605_0403_0201));
    assert_eq!(read_u64_le(&b, usize::MAX), None);
}

/// A file with one record of three matrices, of which the last is left out.
fn sample() -> Vec<u8> {
    let mut b = vec![0u8; 0x200];
    b[0..2].copy_from_slice(&1u16.to_le_bytes());
    b[2..4].copy_from_slice(&3u16.to_le_bytes());
    b[8..16].copy_from_slice(&0x40u64.to_le_bytes());
    b[16..24].copy_from_slice(&0x60u64.to_le_bytes());
    b[24..32].copy_from_slice(&0x80u64.to_le_bytes());
    for i in 0..3usize {
        b[0x40 + 4 * i..0x44 + 4 * i].copy_from_slice(&(0xA0 + i as u32).to_le_bytes());
        b[0x60 + 4 * i..0x64 + 4 * i].copy_from_slice(&(0xB0 + i as u32).to_le_bytes());
        for k in [0usize, 5, 10, 15] {
            let at = 0x80 + 64 * i + 4 * k;
            b[at..at + 4].copy_from_slice(&1.0f32.to_le_bytes());
        }
        let at = 0x80 + 64 * i + 48;
        b[at..at + 4].copy_from_slice(&(i as f32).to_le_bytes());
    }
    b
}

#[test]
fn placements_are_read_from_records() {
    let b = sample();
    let records = parse_records(&b);
    assert_eq!(records.len(), 1);
    assert_eq!(records[0].count, 3);
    assert_eq!(records[0].p2, 0x80);
    let placements = parse_skel_ext(&b).unwrap();
    assert_eq!(placements.len(), 2);
    assert_eq!(placements[1].p0_hash, 0xA1);
    assert_eq!(placements[1].p1_hash, 0xB1);
    assert_eq!(placements[1].matrix_index, 1);
    assert_eq!(placements[1].position(), [1.0f32.to_bits(), 0, 0]);
}

#[test]
fn first_placement_of_a_cell_is_kept() {
    let placements = parse_skel_ext(&sample()).unwrap();
    assert_eq!(dedupe_by_position(&placements, 0.01f32.to_bits()).len(), 2);
    let coarse = dedupe_by_position(&placements, 10.0f32.to_bits());
    assert_eq!(coarse.len(), 1);
    assert_eq!(coarse[0].matrix_index, 0);
    assert_eq!(dedupe_by_position(&coarse, 10.0f32.to_bits()).len(), 1);
}

#[test]
fn to_metric_scales_translation() {
    let m = [
        1.0, 0.0, 0.0, 0.0, 0.0, 1.0, 0.0, 0.0, 0.0, 0.0, 1.0, 0.0, 1.0, 2.0, 3.0, 1.0,
    ];
    let metric = to_metric_glft(bits(m)).map(f32::from_bits);
    assert_eq!(metric[12], 15.0);
    assert_eq!(metric[13], 30.0);
    assert_eq!(metric[14], -45.0);
}
