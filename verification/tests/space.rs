use wowsunpack::models::material::PropertyType;
use wowsunpack::models::material::PropertyValue;
use wowsunpack::models::merged_models::MergedModelsError;
use wowsunpack::models::space::parse_space_instances;
use wowsunpack::models::space::SPACE_HEADER_SIZE;
use wowsunpack::models::space::SPACE_INSTANCE_SIZE;
use wowsunpack::models::space::SPACE_OBSTACLE_SIZE;
use wowsunpack::models::space::SPACE_PARTICLE_SIZE;

fn bits(v: [f32; 3]) -> [u32; 3] {
    [v[0].to_bits(), v[1].to_bits(), v[2].to_bits()]
}

fn put_u16(data: &mut [u8], offset: usize, value: u16) {
    data[offset..offset + 2].copy_from_slice(&value.to_le_bytes());
}

fn put_u32(data: &mut [u8], offset: usize, value: u32) {
    data[offset..offset + 4].copy_from_slice(&value.to_le_bytes());
}

fn put_i32(data: &mut [u8], offset: usize, value: i32) {
    data[offset..offset + 4].copy_from_slice(&value.to_le_bytes());
}

fn put_u64(data: &mut [u8], offset: usize, value: u64) {
    data[offset..offset + 8].copy_from_slice(&value.to_le_bytes());
}

fn put_i64(data: &mut [u8], offset: usize, value: i64) {
    data[offset..offset + 8].copy_from_slice(&value.to_le_bytes());
}

fn put_f32(data: &mut [u8], offset: usize, value: f32) {
    data[offset..offset + 4].copy_from_slice(&value.to_le_bytes());
}

#[test]
fn parses_model_dyes_relative_to_model_instance_base() {
    let model_offset = SPACE_HEADER_SIZE;
    let rec1 = model_offset + SPACE_INSTANCE_SIZE;
    let dye_offset = 0x160usize;
    let old_wrong_offset = dye_offset + 0x60;

    let mut data = vec![0u8; old_wrong_offset + 8];
    put_u32(&mut data, 0x00, 2);
    put_i64(&mut data, 0x20, model_offset as i64);

    put_u64(&mut data, rec1 + 0x50, 0x1234_5678_90ab_cdef);
    data[rec1 + 0x59] = 1;
    data[rec1 + 0x5b] = 4;
    put_i64(&mut data, rec1 + 0x60, dye_offset as i64 - rec1 as i64);

    put_u32(&mut data, dye_offset, 0x46f1_b231);
    put_u32(&mut data, dye_offset + 4, 0x955d_be29);
    put_u32(&mut data, old_wrong_offset, 0x1111_1111);
    put_u32(&mut data, old_wrong_offset + 4, 0x2222_2222);

    let parsed = parse_space_instances(&data).expect("space instances");
    let dye = parsed.instances[1].model_dyes[0];
    assert_eq!(dye.matter_id, 0x46f1_b231);
    assert_eq!(dye.replaces_id, 0x955d_be29);
}

#[test]
fn parses_stable_guid_descriptor_relative_to_descriptor_base() {
    let model_offset = SPACE_HEADER_SIZE;
    let rec0 = model_offset;
    let guid_offset = 0x100usize;
    let guid = b"2E8F86C7.4B8A6236.75A3978F.4D162DE3\0";

    let mut data = vec![0u8; guid_offset + guid.len()];
    put_u32(&mut data, 0x00, 1);
    put_i64(&mut data, 0x20, model_offset as i64);

    put_u64(&mut data, rec0 + 0x40, guid.len() as u64);
    put_i64(&mut data, rec0 + 0x48, guid_offset as i64 - (rec0 + 0x40) as i64);
    put_u64(&mut data, rec0 + 0x50, 0x1234_5678_90ab_cdef);
    data[guid_offset..guid_offset + guid.len()].copy_from_slice(guid);

    let parsed = parse_space_instances(&data).expect("space instances");
    assert_eq!(
        parsed.instances[0].stable_guid.as_deref(),
        Some("2E8F86C7.4B8A6236.75A3978F.4D162DE3")
    );
}

#[test]
fn parses_obstacle_packed_indices_and_grid_bounds() {
    let obstacle_offset = SPACE_HEADER_SIZE;
    let rec = obstacle_offset;
    let mut data = vec![0u8; obstacle_offset + SPACE_OBSTACLE_SIZE];

    put_u32(&mut data, 0x04, 1);
    put_i64(&mut data, 0x28, obstacle_offset as i64);

    put_f32(&mut data, rec, 1.0);
    put_f32(&mut data, rec + 0x14, 1.0);
    put_f32(&mut data, rec + 0x28, 1.0);
    put_f32(&mut data, rec + 0x3c, 1.0);
    put_f32(&mut data, rec + 0x30, -629.387);
    put_f32(&mut data, rec + 0x34, -8.695);
    put_f32(&mut data, rec + 0x38, -599.672);
    let packed = (5u32 << 16) | 4u32;
    put_u32(&mut data, rec + 0x40, packed);
    put_i32(&mut data, rec + 0x48, -8);
    put_i32(&mut data, rec + 0x4c, -7);
    put_i32(&mut data, rec + 0x50, -6);
    put_i32(&mut data, rec + 0x54, -6);

    let parsed = parse_space_instances(&data).expect("space instances");
    let obstacle = &parsed.obstacles[0];
    assert_eq!(obstacle.source_offset, rec);
    assert_eq!(obstacle.position, bits([-629.387, -8.695, -599.672]));
    assert_eq!(obstacle.packed_indices, packed);
    assert_eq!(obstacle.candidate_model_instance_index, 4);
    assert_eq!(obstacle.candidate_collision_model_index, 5);
    assert_eq!(obstacle.grid_min, [-8, -7]);
    assert_eq!(obstacle.grid_max, [-6, -6]);
}

#[test]
fn parses_particle_intensities_relative_to_record_base() {
    let particle_offset = SPACE_HEADER_SIZE;
    let rec = particle_offset;
    let intensity_offset = particle_offset + SPACE_PARTICLE_SIZE;
    let old_wrong_offset = intensity_offset + 0x60;
    let mut data = vec![0u8; old_wrong_offset + 24];

    put_u32(&mut data, 0x08, 1);
    put_i64(&mut data, 0x30, particle_offset as i64);
    put_f32(&mut data, rec, 1.0);
    put_f32(&mut data, rec + 0x14, 1.0);
    put_f32(&mut data, rec + 0x28, 1.0);
    put_f32(&mut data, rec + 0x3c, 1.0);
    put_f32(&mut data, rec + 0x30, -741.305);
    put_f32(&mut data, rec + 0x34, 13.294);
    put_f32(&mut data, rec + 0x38, -172.677);
    data[rec + 0x40..rec + 0x50].copy_from_slice(&[0xAB; 16]);
    put_u64(&mut data, rec + 0x50, 0x1234_5678_90ab_cdef);
    put_u32(&mut data, rec + 0x58, 6);
    put_i64(&mut data, rec + 0x60, intensity_offset as i64 - rec as i64);

    let values: [f32; 6] = [0.25, 0.8, 0.9, 1.5, 1.0, 1.0];
    for (idx, value) in values.iter().enumerate() {
        put_f32(&mut data, intensity_offset + idx * 4, *value);
        put_f32(&mut data, old_wrong_offset + idx * 4, 99.0);
    }

    let parsed = parse_space_instances(&data).expect("space instances");
    let particle = &parsed.particles[0];
    assert_eq!(particle.position, bits([-741.305, 13.294, -172.677]));
    assert_eq!(particle.raw_guid_blob, [0xAB; 16]);
    assert_eq!(particle.resource_id, 0x1234_5678_90ab_cdef);
    let expected: Vec<u32> = values.iter().map(|v| v.to_bits()).collect();
    assert_eq!(particle.intensity_values, expected);
}

#[test]
fn parses_particle_with_zero_intensity_count() {
    let particle_offset = SPACE_HEADER_SIZE;
    let rec = particle_offset;
    let mut data = vec![0u8; particle_offset + SPACE_PARTICLE_SIZE];

    put_u32(&mut data, 0x08, 1);
    put_i64(&mut data, 0x30, particle_offset as i64);
    put_u64(&mut data, rec + 0x50, 0x0fed_cba9_8765_4321);

    let parsed = parse_space_instances(&data).expect("space instances");
    let particle = &parsed.particles[0];
    assert_eq!(particle.resource_id, 0x0fed_cba9_8765_4321);
    assert_eq!(particle.intensity_count, 0);
    assert!(particle.intensity_values.is_empty());
}

#[test]
fn parses_static_decal_texture_block_and_descriptors() {
    let decal_offset = SPACE_HEADER_SIZE;
    let rec = decal_offset;
    let texture_block_offset = 0x120usize;
    let tex0_offset = 0x180usize;
    let tex1_offset = 0x1d0usize;
    let tex2_offset = 0x220usize;
    let tex0 = b"maps/decals/01_Solomon/spot_alpha_a.tga\0";
    let tex1 = b"maps/decals/01_Solomon/spot_n.tga\0";
    let tex2 = b"maps/decals/01_Solomon/spot_mg.tga\0";

    let mut data = vec![0u8; tex2_offset + tex2.len()];
    put_u32(&mut data, 0x14, 1);
    put_i64(&mut data, 0x48, decal_offset as i64);
    put_u32(&mut data, rec, 3);
    put_u32(&mut data, rec + 0x04, 1);
    put_u32(&mut data, rec + 0x08, 4);
    put_u32(&mut data, rec + 0x10, 5);
    put_f32(&mut data, rec + 0x14, 0.31);
    put_u32(&mut data, rec + 0x18, 1);
    put_i64(&mut data, rec + 0x20, texture_block_offset as i64 - rec as i64);
    put_f32(&mut data, rec + 0x28, 1.0);
    put_f32(&mut data, rec + 0x3c, 1.0);
    put_f32(&mut data, rec + 0x50, 1.0);
    put_f32(&mut data, rec + 0x64, 1.0);
    put_f32(&mut data, rec + 0x58, -231.926);
    put_f32(&mut data, rec + 0x5c, 0.188);
    put_f32(&mut data, rec + 0x60, -66.611);

    put_u64(&mut data, texture_block_offset, tex0.len() as u64);
    put_i64(&mut data, texture_block_offset + 0x08, tex0_offset as i64 - texture_block_offset as i64);
    put_u64(&mut data, texture_block_offset + 0x10, tex1.len() as u64);
    put_i64(&mut data, texture_block_offset + 0x18, tex1_offset as i64 - (texture_block_offset + 0x10) as i64);
    put_u64(&mut data, texture_block_offset + 0x20, tex2.len() as u64);
    put_i64(&mut data, texture_block_offset + 0x28, tex2_offset as i64 - (texture_block_offset + 0x20) as i64);
    data[tex0_offset..tex0_offset + tex0.len()].copy_from_slice(tex0);
    data[tex1_offset..tex1_offset + tex1.len()].copy_from_slice(tex1);
    data[tex2_offset..tex2_offset + tex2.len()].copy_from_slice(tex2);

    let parsed = parse_space_instances(&data).expect("space instances");
    let decal = &parsed.static_decals[0];
    assert_eq!(decal.header.technique, 3);
    assert_eq!(decal.header.variant, 5);
    assert!((f32::from_bits(decal.header.alpha) - 0.31).abs() < f32::EPSILON);
    assert_eq!(decal.position, bits([-231.926, 0.188, -66.611]));
    assert_eq!(decal.texture_paths[0].as_deref(), Some("maps/decals/01_Solomon/spot_alpha_a.tga"));
    assert_eq!(decal.texture_paths[1].as_deref(), Some("maps/decals/01_Solomon/spot_n.tga"));
    assert_eq!(decal.texture_paths[2].as_deref(), Some("maps/decals/01_Solomon/spot_mg.tga"));
}

#[test]
fn preserves_blank_static_decal_third_texture_slot() {
    let decal_offset = SPACE_HEADER_SIZE;
    let rec = decal_offset;
    let texture_block_offset = 0x100usize;
    let tex0_offset = 0x130usize;
    let tex1_offset = 0x150usize;
    let tex2_offset = 0x170usize;
    let tex0 = b"maps/decals/Dock/a.dds\0";
    let tex1 = b"maps/decals/Dock/n.dds\0";
    let tex2 = b"\0";

    let mut data = vec![0u8; tex2_offset + tex2.len()];
    put_u32(&mut data, 0x14, 1);
    put_i64(&mut data, 0x48, decal_offset as i64);
    put_i64(&mut data, rec + 0x20, texture_block_offset as i64 - rec as i64);

    put_u64(&mut data, texture_block_offset, tex0.len() as u64);
    put_i64(&mut data, texture_block_offset + 0x08, tex0_offset as i64 - texture_block_offset as i64);
    put_u64(&mut data, texture_block_offset + 0x10, tex1.len() as u64);
    put_i64(&mut data, texture_block_offset + 0x18, tex1_offset as i64 - (texture_block_offset + 0x10) as i64);
    put_u64(&mut data, texture_block_offset + 0x20, tex2.len() as u64);
    put_i64(&mut data, texture_block_offset + 0x28, tex2_offset as i64 - (texture_block_offset + 0x20) as i64);
    data[tex0_offset..tex0_offset + tex0.len()].copy_from_slice(tex0);
    data[tex1_offset..tex1_offset + tex1.len()].copy_from_slice(tex1);
    data[tex2_offset..tex2_offset + tex2.len()].copy_from_slice(tex2);

    let parsed = parse_space_instances(&data).expect("space instances");
    let decal = &parsed.static_decals[0];
    assert_eq!(decal.texture_paths[0].as_deref(), Some("maps/decals/Dock/a.dds"));
    assert_eq!(decal.texture_paths[1].as_deref(), Some("maps/decals/Dock/n.dds"));
    assert_eq!(decal.texture_paths[2].as_deref(), Some(""));
}

#[test]
fn parses_space_probe_record_from_probe_subarray() {
    let probe_offset = SPACE_HEADER_SIZE;
    let rec = probe_offset;
    let guid_offset = 0x100usize;
    let name_offset = 0x128usize;
    let guid = b"FFE10835.4B0F3F54.96C54EAD.82303DAF\0";
    let name = b"main_probe\0";

    let mut data = vec![0u8; name_offset + name.len()];
    put_u32(&mut data, 0x10, 1);
    put_i64(&mut data, 0x40, probe_offset as i64);
    put_f32(&mut data, rec, 1.0);
    put_f32(&mut data, rec + 0x14, 1.0);
    put_f32(&mut data, rec + 0x28, 1.0);
    put_f32(&mut data, rec + 0x3c, 1.0);
    put_f32(&mut data, rec + 0x34, 0.5);
    put_u64(&mut data, rec + 0x40, guid.len() as u64);
    put_i64(&mut data, rec + 0x48, guid_offset as i64 - (rec + 0x40) as i64);
    put_u64(&mut data, rec + 0x50, name.len() as u64);
    put_i64(&mut data, rec + 0x58, name_offset as i64 - (rec + 0x50) as i64);
    put_u32(&mut data, rec + 0x60, 512);
    data[rec + 0x68] = 1;
    data[rec + 0x69] = 1;
    data[guid_offset..guid_offset + guid.len()].copy_from_slice(guid);
    data[name_offset..name_offset + name.len()].copy_from_slice(name);

    let parsed = parse_space_instances(&data).expect("space instances");
    let probe = &parsed.probes[0];
    assert_eq!(probe.guid.as_deref(), Some("FFE10835.4B0F3F54.96C54EAD.82303DAF"));
    assert_eq!(probe.name.as_deref(), Some("main_probe"));
    assert_eq!(probe.resolution, 512);
    assert!(probe.is_main_probe);
    assert!(probe.draw_full_scene);
    assert_eq!(probe.position, bits([0.0, 0.5, 0.0]));
}

#[test]
fn parses_user_object_record_from_user_objects_subarray() {
    let user_object_offset = SPACE_HEADER_SIZE;
    let rec = user_object_offset;
    let guid_offset = 0x100usize;
    let type_offset = 0x128usize;
    let properties_offset = 0x140usize;
    let guid = b"D03F81A8.4506DA63.2999C39B.9EB68E8D\0";
    let object_type = b"WayPoint\0";
    let properties = b"<properties><next><item><guid>89E297B4.4A9DF3B8.880451BD.70EA35B6</guid><chunkId>fffaffffo</chunkId></item></next><speed>12.5</speed></properties>\0";

    let mut data = vec![0u8; properties_offset + properties.len()];
    put_u32(&mut data, 0x18, 1);
    put_i64(&mut data, 0x50, user_object_offset as i64);
    put_f32(&mut data, rec, 1.0);
    put_f32(&mut data, rec + 0x14, 1.0);
    put_f32(&mut data, rec + 0x28, 1.0);
    put_f32(&mut data, rec + 0x3c, 1.0);
    put_f32(&mut data, rec + 0x30, 10.0);
    put_f32(&mut data, rec + 0x34, 2.0);
    put_f32(&mut data, rec + 0x38, -5.0);
    put_u64(&mut data, rec + 0x40, guid.len() as u64);
    put_i64(&mut data, rec + 0x48, guid_offset as i64 - (rec + 0x40) as i64);
    put_u64(&mut data, rec + 0x50, object_type.len() as u64);
    put_i64(&mut data, rec + 0x58, type_offset as i64 - (rec + 0x50) as i64);
    put_u64(&mut data, rec + 0x60, properties.len() as u64);
    put_i64(&mut data, rec + 0x68, properties_offset as i64 - (rec + 0x60) as i64);
    data[guid_offset..guid_offset + guid.len()].copy_from_slice(guid);
    data[type_offset..type_offset + object_type.len()].copy_from_slice(object_type);
    data[properties_offset..properties_offset + properties.len()].copy_from_slice(properties);

    let parsed = parse_space_instances(&data).expect("space instances");
    let object = &parsed.user_objects[0];
    assert_eq!(object.guid.as_deref(), Some("D03F81A8.4506DA63.2999C39B.9EB68E8D"));
    assert_eq!(object.object_type.as_deref(), Some("WayPoint"));
    assert_eq!(object.position, bits([10.0, 2.0, -5.0]));
    assert!(object.properties_well_formed);
    assert_eq!(object.property_tags, ["next", "item", "guid", "chunkId", "speed"]);
    assert_eq!(object.property_values.len(), 3);
    assert_eq!(object.property_values[0].path, "next.item.guid");
    assert_eq!(object.property_values[1].path, "next.item.chunkId");
    assert_eq!(object.property_values[2].path, "speed");
}

#[test]
fn preserves_malformed_user_object_properties_as_raw_text() {
    let user_object_offset = SPACE_HEADER_SIZE;
    let rec = user_object_offset;
    let type_offset = 0x100usize;
    let properties_offset = 0x110usize;
    let object_type = b"Barge\0";
    let properties = b"<properties><bad></properties>\0";

    let mut data = vec![0u8; properties_offset + properties.len()];
    put_u32(&mut data, 0x18, 1);
    put_i64(&mut data, 0x50, user_object_offset as i64);
    put_u64(&mut data, rec + 0x50, object_type.len() as u64);
    put_i64(&mut data, rec + 0x58, type_offset as i64 - (rec + 0x50) as i64);
    put_u64(&mut data, rec + 0x60, properties.len() as u64);
    put_i64(&mut data, rec + 0x68, properties_offset as i64 - (rec + 0x60) as i64);
    data[type_offset..type_offset + object_type.len()].copy_from_slice(object_type);
    data[properties_offset..properties_offset + properties.len()].copy_from_slice(properties);

    let parsed = parse_space_instances(&data).expect("space instances");
    let object = &parsed.user_objects[0];
    assert_eq!(object.object_type.as_deref(), Some("Barge"));
    assert_eq!(object.properties_xml.as_deref(), Some("<properties><bad></properties>"));
    assert!(!object.properties_well_formed);
    assert!(object.property_tags.is_empty());
    assert!(object.property_values.is_empty());
}

#[test]
fn parses_material_instances_relative_to_model_instance_base() {
    let model_offset = SPACE_HEADER_SIZE;
    let rec1 = model_offset + SPACE_INSTANCE_SIZE;
    let material_offset = 0x180usize;

    let mut data = vec![0u8; 0x210];
    put_u32(&mut data, 0x00, 2);
    put_i64(&mut data, 0x20, model_offset as i64);

    put_u64(&mut data, rec1 + 0x50, 0x1234_5678_90ab_cdef);
    data[rec1 + 0x5a] = 1;
    data[rec1 + 0x5b] = 4;
    put_i64(&mut data, rec1 + 0x68, material_offset as i64 - rec1 as i64);

    put_u16(&mut data, material_offset, 1);
    put_u32(&mut data, material_offset + 0x04, 0x700);
    put_u64(&mut data, material_offset + 0x08, 0x700);
    put_u64(&mut data, material_offset + 0x10, 0x70);
    put_u64(&mut data, material_offset + 0x18, 0x74);
    put_u64(&mut data, material_offset + 0x38, 0x78);
    put_u64(&mut data, material_offset + 0x68, 0x6a79c245);
    put_u32(&mut data, material_offset + 0x70, 0x5acc9c8b);
    put_u16(&mut data, material_offset + 0x74, 3);
    put_f32(&mut data, material_offset + 0x78, 0.5);

    let parsed = parse_space_instances(&data).expect("space instances");
    let material = &parsed.instances[1].material_instances[0];
    assert_eq!(material.shader_id, 0x700);
    assert_eq!(material.material_hash, 0x6a79c245);
    assert_eq!(material.properties[0].property_type, PropertyType::FloatB);
    assert!(
        matches!(material.properties[0].value, Some(PropertyValue::Float(v)) if (f32::from_bits(v) - 0.5).abs() < f32::EPSILON)
    );
    assert_eq!(material.properties[0].name_hash, 0x5acc9c8b);
    assert_eq!(material.source_offset, material_offset);

    // Another code keeps its property, but not the value.
    put_u16(&mut data, material_offset + 0x74, 4);
    let parsed = parse_space_instances(&data).expect("space instances");
    let material = &parsed.instances[1].material_instances[0];
    assert_eq!(material.properties[0].property_type, PropertyType::Other);
    assert!(material.properties[0].value.is_none());

    // Without its tables, an override is left out.
    put_u64(&mut data, material_offset + 0x18, 0x7400);
    let parsed = parse_space_instances(&data).expect("space instances");
    assert!(parsed.instances[1].material_instances.is_empty());
    assert_eq!(parsed.instances[1].material_instance_count, 1);
}

#[test]
fn short_space_file_is_refused() {
    assert!(matches!(
        parse_space_instances(&[0u8; 0x20]),
        Err(MergedModelsError::DataTooShort { offset: 0, need: 0x60, have: 0x20 })
    ));
}

#[test]
fn records_behind_the_end_are_refused() {
    let mut data = vec![0u8; SPACE_HEADER_SIZE];
    put_u32(&mut data, 0x00, 1);
    put_i64(&mut data, 0x20, SPACE_HEADER_SIZE as i64);
    assert!(parse_space_instances(&data).is_err());
}

#[test]
fn texts_that_are_not_utf8_are_repaired() {
    let mut data = vec![0u8; SPACE_HEADER_SIZE + SPACE_INSTANCE_SIZE + 8];
    let rec = SPACE_HEADER_SIZE;
    put_u32(&mut data, 0x00, 1);
    put_i64(&mut data, 0x20, rec as i64);
    put_u64(&mut data, rec + 0x40, 3);
    put_i64(&mut data, rec + 0x48, 0x30);
    data[rec + 0x70] = b'A';
    data[rec + 0x71] = 0xFF;
    data[rec + 0x72] = b'B';
    let parsed = parse_space_instances(&data).unwrap();
    assert_eq!(parsed.instances[0].stable_guid.as_deref(), Some("A\u{FFFD}B"));
}
