use winnow::binary::le_u32;
use winnow::error::ContextError;
use winnow::error::ErrMode;
use wowsunpack::models::merged_models::parse_merged_models;
use wowsunpack::models::merged_models::MergedModelsError;
use wowsunpack::models::merged_models::RecordFault;
use wowsunpack::models::merged_models::END_OF_INPUT;
use wowsunpack::models::merged_models::MODEL_RECORD_SIZE;

fn put_u32(data: &mut [u8], offset: usize, value: u32) {
    data[offset..offset + 4].copy_from_slice(&value.to_le_bytes());
}

fn put_u64(data: &mut [u8], offset: usize, value: u64) {
    data[offset..offset + 8].copy_from_slice(&value.to_le_bytes());
}

fn put_i64(data: &mut [u8], offset: usize, value: i64) {
    data[offset..offset + 8].copy_from_slice(&value.to_le_bytes());
}

#[test]
fn parses_inline_model_proto_dyes() {
    let models_off = 0x18usize;
    let rec = models_off;
    let mp = rec + 0x08;
    let dye_off = models_off + MODEL_RECORD_SIZE as usize;
    let names_off = dye_off + 0x20;
    let mats_off = names_off + 0x08;

    let mut data = vec![0u8; mats_off + 0x10];
    put_u32(&mut data, 0x00, 1);
    put_i64(&mut data, 0x08, models_off as i64);
    put_i64(&mut data, 0x10, (mats_off + 0x10) as i64);

    put_u64(&mut data, rec, 0xdead_beef_cafe_f00d);
    data[mp + 0x0B] = 1;
    put_i64(&mut data, mp + 0x20, (dye_off - mp) as i64);

    put_u32(&mut data, dye_off, 0x46f1_b231);
    put_u32(&mut data, dye_off + 0x04, 0x46f1_b231);
    put_u32(&mut data, dye_off + 0x08, 2);
    put_i64(&mut data, dye_off + 0x10, (names_off - dye_off) as i64);
    put_i64(&mut data, dye_off + 0x18, (mats_off - dye_off) as i64);
    put_u32(&mut data, names_off, 0x955d_be29);
    put_u32(&mut data, names_off + 4, 0x0e6c_e501);
    put_u64(&mut data, mats_off, 0xc042_cbb3_aa90_21e2);
    put_u64(&mut data, mats_off + 8, 0x1111_2222_3333_4444);

    let parsed = parse_merged_models(&data).expect("merged models");
    let dyes = &parsed.models[0].model_proto.dyes;
    assert_eq!(dyes.len(), 1);
    assert_eq!(dyes[0].matter_id, 0x46f1_b231);
    assert_eq!(dyes[0].replaces_id, 0x46f1_b231);
    assert_eq!(dyes[0].tint_name_ids, [0x955d_be29, 0x0e6c_e501]);
    assert_eq!(dyes[0].tint_material_ids, [0xc042_cbb3_aa90_21e2, 0x1111_2222_3333_4444]);
}

#[test]
fn short_model_file_is_refused() {
    let e = parse_merged_models(&[0u8; 8]).unwrap_err();
    assert!(matches!(e, MergedModelsError::DataTooShort { offset: 0, need: 0x18, have: 8 }));
    assert_eq!(e.message(), "data too short: need 24 bytes at offset 0x0, have 8");
}

#[test]
fn faults_say_where_they_are() {
    let f = RecordFault::ArrayTooShort { offset: 0x1F0 };
    assert_eq!(f.message(), format!("parse error: array at 0x1F0: {END_OF_INPUT}"));
    let f = RecordFault::DataTooShort { offset: 16, need: 4, have: 2 };
    assert_eq!(f.message(), "data too short: need 4 bytes at offset 0x10, have 2");
    let f = RecordFault::DyesTooShort { offset: 16, need: 4, have: 2 };
    assert_eq!(
        f.message(),
        "parse error: inline_mp dyes: data too short: need 4 bytes at offset 0x10, have 2"
    );
    let f = RecordFault::DyeArrayTooShort { offset: 0xA };
    assert_eq!(
        f.message(),
        format!("parse error: inline_mp dyes: parse error: array at 0xA: {END_OF_INPUT}")
    );
    // The wording of a parser that reads numbers.
    let mut input: &[u8] = &[1, 2, 3];
    let e: ErrMode<ContextError> = le_u32(&mut input).unwrap_err();
    assert_eq!(e.to_string(), END_OF_INPUT);
}

#[test]
fn model_with_array_outside_the_file_is_refused() {
    let mut data = vec![0u8; 0x18 + 0xA8];
    put_u32(&mut data, 0x00, 1);
    put_i64(&mut data, 0x08, 0x18);
    put_i64(&mut data, 0x10, 0xC0);
    // One node, whose arrays start far behind the end.
    put_u32(&mut data, 0x18 + 0x30, 1);
    put_i64(&mut data, 0x18 + 0x30 + 0x08, 0x10_0000);
    let e = parse_merged_models(&data).unwrap_err();
    assert!(matches!(e, MergedModelsError::ParseError(_)));
    assert_eq!(
        e.message(),
        format!("parse error: model[0]: parse error: array at 0x100048: {END_OF_INPUT}")
    );
    // A dye behind the end.
    put_u32(&mut data, 0x18 + 0x30, 0);
    data[0x18 + 0x08 + 0x0B] = 1;
    put_i64(&mut data, 0x18 + 0x08 + 0x20, 0x1000);
    assert_eq!(
        parse_merged_models(&data).unwrap_err().message(),
        "parse error: model[0]: parse error: inline_mp dyes: data too short: need 32 bytes at \
         offset 0x1020, have 192"
    );
    // A skeleton with an array behind the end.
    let mut data = vec![0u8; 0x18 + 0x30];
    data[4] = 1;
    put_i64(&mut data, 0x10, 0x18);
    put_u32(&mut data, 0x18, 1);
    put_i64(&mut data, 0x18 + 0x08, 0x100);
    assert_eq!(
        parse_merged_models(&data).unwrap_err().message(),
        format!("parse error: skeleton[0]: parse error: array at 0x118: {END_OF_INPUT}")
    );
}
