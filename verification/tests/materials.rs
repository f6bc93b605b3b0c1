use wowsunpack::export::materials;
use wowsunpack::export::pbr;
use wowsunpack::export::sub_models::OwnedSubModel;
use wowsunpack::models::assets_bin;
use wowsunpack::models::assets_bin::PathEntry;
use wowsunpack::models::assets_bin::PrototypeDatabase;
use wowsunpack::models::assets_bin::RecordLocation;
use wowsunpack::models::assets_bin::ResourceEntry;
use wowsunpack::models::assets_bin::StringEntry;
use wowsunpack::models::assets_bin::VisualFault;
use wowsunpack::models::material;
use wowsunpack::models::material::MaterialProperty;
use wowsunpack::models::material::MaterialPrototype;
use wowsunpack::models::material::PropertyType;
use wowsunpack::models::material::PropertyValue;
use wowsunpack::models::visual::BoundingBox;
use wowsunpack::models::visual::RenderSet;
use wowsunpack::models::visual::VisualNodes;
use wowsunpack::models::visual::VisualPrototype;

fn property(
    property_type: PropertyType,
    name: Option<&str>,
    value: PropertyValue,
) -> MaterialProperty {
    MaterialProperty {
        property_type,
        name: name.map(str::to_string),
        name_hash: 0xBEEF,
        value: Some(value),
    }
}

fn database() -> PrototypeDatabase {
    let path = |name: &str, self_id: u64| PathEntry {
        name: name.to_string(),
        full_path: format!("/content/{name}"),
        self_id,
    };
    let at = |self_id: u64, blob_index: usize, record_index: usize| ResourceEntry {
        self_id,
        location: Some(RecordLocation { blob_index, record_index }),
    };
    PrototypeDatabase {
        paths: vec![path("Hull.mfm", 1), path("Hull_mg.dd0", 2), path("Deck.mfm", 3)],
        strings: vec![StringEntry { id: 10, text: "Hull_Material".to_string() }],
        resources: vec![
            at(1, 0, 0),
            at(20, 1, 5),
            at(21, 3, 0),
            at(22, 1, 9),
            at(23, 7, 0),
            ResourceEntry { self_id: 24, location: None },
        ],
        materials: vec![Some(MaterialPrototype {
            shader_id: 0xAB,
            material_hash: 0,
            properties: vec![
                property(PropertyType::Texture, Some("metallicGloss"), PropertyValue::Texture(2)),
                property(PropertyType::Texture, Some("none"), PropertyValue::Texture(0)),
                property(PropertyType::Texture, Some("lost"), PropertyValue::Texture(99)),
                property(PropertyType::FloatA, None, PropertyValue::Float(1.5f32.to_bits())),
                property(PropertyType::FloatB, Some("alpha"), PropertyValue::Float(1)),
                property(PropertyType::FloatB, Some("alpha"), PropertyValue::Float(2)),
                property(PropertyType::Other, Some("beta"), PropertyValue::Float(3)),
            ],
        })],
        model_visuals: vec![Some(20), Some(0), None, Some(77), Some(23), Some(24), Some(22)],
        visual_count: 6,
    }
}

fn render_set(name_id: u32, material_name_id: u32, mfm: u64) -> RenderSet {
    RenderSet {
        name_id,
        material_name_id,
        vertices_mapping_id: 0,
        indices_mapping_id: 0,
        material_mfm_path_id: mfm,
        skinned: true,
        node_name_ids: vec![],
    }
}

fn visual(render_sets: Vec<RenderSet>) -> VisualPrototype {
    VisualPrototype {
        nodes: VisualNodes {
            name_map_name_ids: vec![],
            name_map_node_ids: vec![],
            name_ids: vec![],
            matrices: vec![],
            parent_ids: vec![],
        },
        merged_geometry_path_id: 0,
        underwater_model: false,
        abovewater_model: false,
        bounding_box: BoundingBox { min: [0; 3], max: [0; 3] },
        render_sets,
        lods: vec![],
    }
}

#[test]
fn texture_paths_split_into_stem_and_channel() {
    let split = |p: &str| materials::derive_texture_stem_and_channel(p);
    let pair = |a: &str, b: &str| (a.to_string(), b.to_string());
    assert_eq!(split("a/b/JSB_Hull_mg.dd0"), pair("JSB_Hull", "_mg"));
    assert_eq!(split("content/x/JSC008_Myoko_1945_Bow_a.dds"), pair("JSC008_Myoko_1945_Bow", "_a"));
    assert_eq!(
        split("content/x/JSC008_Myoko_1945_Bow_normal.dd0"),
        pair("JSC008_Myoko_1945_Bow", "_normal")
    );
    assert_eq!(split("content/x/no_channel.dds"), pair("no_channel", ""));
    assert_eq!(split("JSB_Hull_normal.dds"), pair("JSB_Hull", "_normal"));
    assert_eq!(split("JSB_Hull_n.dd2"), pair("JSB_Hull", "_n"));
    assert_eq!(split("a/JSB_Hull.dd1"), pair("JSB_Hull", ""));
    assert_eq!(split("a/JSB_Hull_ao.png"), pair("JSB_Hull_ao.png", ""));
    assert_eq!(split(""), pair("", ""));
}

#[test]
fn materials_of_a_visual_are_listed() {
    let db = database();
    let v = visual(vec![
        render_set(10, 10, 1),
        render_set(0x2A, 0x2B, 3),
        render_set(10, 10, 0),
        render_set(10, 10, 50),
        render_set(10, 10, 1),
    ]);
    let entries = materials::build_material_entries_for_visual(&v, &db, "Bow");
    assert_eq!(entries.len(), 3);
    assert_eq!(entries[0].material_identifier, "Hull_Material");
    assert_eq!(entries[0].mfm_stem, "Hull");
    assert_eq!(entries[0].mfm_path, "/content/Hull.mfm");
    assert_eq!(entries[0].sub_model, "Bow");
    assert!(entries[0].skinned);
    let binding = entries[0].binding.as_ref().unwrap();
    assert_eq!(binding.shader_id, "0x000000ab");
    assert_eq!(binding.textures.len(), 1);
    assert_eq!(binding.textures[0].name, "metallicGloss");
    assert_eq!(binding.textures[0].value.stem, "Hull");
    assert_eq!(binding.textures[0].value.channel, "_mg");
    assert_eq!(binding.textures[0].value.hash, "0x0000000000000002");
    let floats: Vec<(&str, u32)> =
        binding.floats.iter().map(|f| (f.name.as_str(), f.value)).collect();
    assert_eq!(floats, [("0x0000beef", 1.5f32.to_bits()), ("alpha", 2)]);
    assert_eq!(entries[1].material_identifier, "material_0x0000002B");
    assert_eq!(entries[1].render_set, "rs_0x0000002A");
    assert!(entries[1].binding.is_none());
    let part = |name: &str, mfm: u64| OwnedSubModel {
        name: name.to_string(),
        visual: visual(vec![render_set(10, 10, mfm)]),
        geom_bytes: vec![],
        splash_bytes: None,
    };
    let all = materials::list_materials(&vec![part("A", 3), part("B", 1)], &db);
    let seen: Vec<(&str, &str)> =
        all.iter().map(|e| (e.sub_model.as_str(), e.mfm_stem.as_str())).collect();
    assert_eq!(seen, [("A", "Deck"), ("B", "Hull")]);
    let infos = materials::collect_mfm_info(&v, &db);
    let stems: Vec<&str> = infos.iter().map(|i| i.stem.as_str()).collect();
    assert_eq!(stems, ["Hull", "Deck"]);
    let mut twice = materials::collect_mfm_info(&v, &db);
    twice.extend(infos);
    assert_eq!(materials::unique_infos(twice).len(), 2);
}

#[test]
fn visuals_are_found_directly_or_by_model() {
    let db = database();
    let at = |blob_index: usize, record_index: usize| {
        assets_bin::resolve_visual_data(&db, Some(RecordLocation { blob_index, record_index }))
    };
    assert_eq!(at(1, 5), Ok(5));
    assert_eq!(at(1, 6), Err(VisualFault::BadRecord));
    assert_eq!(at(3, 0), Ok(5));
    assert_eq!(at(3, 1), Err(VisualFault::NullVisual));
    assert_eq!(at(3, 2), Err(VisualFault::BadRecord));
    assert_eq!(at(3, 3), Err(VisualFault::UnknownVisual { visual_resource_id: 77 }));
    assert_eq!(at(3, 4), Err(VisualFault::NotAVisual { blob_index: 7 }));
    assert_eq!(at(3, 5), Err(VisualFault::BadLocation { visual_resource_id: 24 }));
    assert_eq!(at(3, 6), Err(VisualFault::BadRecord));
    assert_eq!(at(3, 7), Err(VisualFault::BadRecord));
    assert_eq!(at(2, 0), Err(VisualFault::UnexpectedTable { blob_index: 2 }));
    assert_eq!(assets_bin::resolve_visual_data(&db, None), Err(VisualFault::NotFound));
    assert!(assets_bin::parse_mfm_from_db(&db, 1).is_some());
    assert!(assets_bin::parse_mfm_from_db(&db, 20).is_none());
    assert!(assets_bin::parse_mfm_from_db(&db, 5).is_none());
    assert_eq!(db.find_path(2), Some(1));
    assert_eq!(db.get_string_by_id(10).as_deref(), Some("Hull_Material"));
}

#[test]
fn terrain_materials_have_an_atlas_and_a_blend_map() {
    let vec4 = PropertyValue::Vec4([1, 2, 3, 4]);
    let mut mat = MaterialPrototype {
        shader_id: 0,
        material_hash: 0,
        properties: vec![
            property(PropertyType::Texture, Some("AHArray"), PropertyValue::Texture(7)),
            property(PropertyType::Texture, Some("blendMap"), PropertyValue::Texture(8)),
            property(PropertyType::Other, Some("g_tilesIndex"), vec4),
        ],
    };
    assert!(material::is_tiledland_material(&mat));
    let inputs = material::tiledland_inputs(&mat).unwrap();
    assert_eq!((inputs.atlas_hash, inputs.blend_hash), (7, 8));
    assert_eq!(inputs.tiles_index, [1, 2, 3, 4]);
    assert_eq!(f32::from_bits(inputs.tiles_scale), 16.0);
    assert_eq!(inputs.sheen_tint, None);
    assert_eq!(f32::from_bits(inputs.sheen_amount), 0.0);
    mat.properties.push(property(PropertyType::FloatA, Some("g_tilesScale"), PropertyValue::Float(5)));
    mat.properties.push(property(PropertyType::FloatA, Some("sheen"), PropertyValue::Float(6)));
    mat.properties.push(property(PropertyType::Other, Some("addSheenTintColor"), vec4));
    let inputs = material::tiledland_inputs(&mat).unwrap();
    assert_eq!((inputs.tiles_scale, inputs.sheen_amount), (5, 6));
    assert_eq!(inputs.sheen_tint, Some([1, 2, 3, 4]));
    assert_eq!(mat.get_texture_hash("AHArray"), Some(7));
    assert_eq!(mat.get_texture_hash("sheen"), None);
    assert_eq!(mat.get_vec4("g_tilesIndex"), Some([1, 2, 3, 4]));
    assert_eq!(mat.get_float("sheen"), Some(6));
    mat.properties.remove(1);
    assert!(!material::is_tiledland_material(&mat));
    assert!(material::tiledland_inputs(&mat).is_none());
}

#[test]
fn textures_of_a_material_are_found_by_slot() {
    let mut db = database();
    let texture = |name: &str, id: u64| {
        property(PropertyType::Texture, Some(name), PropertyValue::Texture(id))
    };
    db.materials[0].as_mut().unwrap().properties = vec![
        texture("normalMap", 5),
        texture("metallicGlossMap", 6),
        property(PropertyType::FloatA, Some("ambientOcclusionMap"), PropertyValue::Float(7)),
    ];
    let found = pbr::pbr_textures(&db, 1);
    assert_eq!(found.normal, Some(5));
    assert_eq!(found.metallic_gloss, Some(6));
    assert_eq!(found.occlusion, None);
    assert_eq!(pbr::pbr_textures(&db, 20).normal, None);
    assert!(pbr::tile_material(&db, 1).is_none());
    db.materials[0].as_mut().unwrap().properties = vec![
        texture("AHArray", 7),
        texture("blendMap", 8),
        property(PropertyType::Other, Some("g_tilesIndex"), PropertyValue::Vec4([0; 4])),
    ];
    assert_eq!(pbr::tile_material(&db, 1).unwrap().blend_hash, 8);
    assert!(pbr::tile_material(&db, 0).is_none());
    assert!(pbr::tile_material(&db, 3).is_none());
}
