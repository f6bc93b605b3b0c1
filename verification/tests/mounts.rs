use wowsunpack::export::mounts;
use wowsunpack::export::mounts::HullPart;
use wowsunpack::export::mounts::MountPoint;
use wowsunpack::export::mounts::NodePose;
use wowsunpack::export::mounts::ResolvedMount;
use wowsunpack::export::mounts::TurretModel;
use wowsunpack::export::mounts::IDENTITY_4X4;
use wowsunpack::export::placements;
use wowsunpack::export::placements::Section;
use wowsunpack::export::ship;
use wowsunpack::export::ship::AccessoryMode;
use wowsunpack::export::ship::PartSource;
use wowsunpack::export::ship::ShipExportOptions;
use wowsunpack::export::skel_ext_candidates;
use wowsunpack::export::skel_ext_candidates::BoneRest;
use wowsunpack::export::skel_ext_candidates::LocatedPlacement;
use wowsunpack::export::skel_ext_candidates::MissingBone;
use wowsunpack::export::skel_ext_candidates::OwnedSkelExt;
use wowsunpack::export::skel_ext_candidates::SkelExtSubject;
use wowsunpack::export::skel_ext_candidates::Skeleton;
use wowsunpack::export::sub_models::OwnedSubModel;
use wowsunpack::game_params::types::ArmorPlate;
use wowsunpack::game_params::types::MountSpecies;
use wowsunpack::models::assets_bin::PrototypeDatabase;
use wowsunpack::models::assets_bin::StringEntry;
use wowsunpack::models::skel_ext::SkelExtPlacement;
use wowsunpack::models::visual::BoundingBox;
use wowsunpack::models::visual::Lod;
use wowsunpack::models::visual::Matrix4x4;
use wowsunpack::models::visual::RenderSet;
use wowsunpack::models::visual::VisualNodes;
use wowsunpack::models::visual::VisualPrototype;
use wowsunpack::slots::NamedSlot;

fn moved(x: f32, y: f32, z: f32) -> Matrix4x4 {
    let mut m = IDENTITY_4X4;
    m[12] = x.to_bits();
    m[13] = y.to_bits();
    m[14] = z.to_bits();
    Matrix4x4(m)
}

fn quarter_turn() -> [f32; 16] {
    [0.0, 0.0, -1.0, 0.0, 0.0, 1.0, 0.0, 0.0, 1.0, 0.0, 0.0, 0.0, 5.0, 6.0, 7.0, 1.0]
}

fn matrix(m: [f32; 16]) -> Matrix4x4 {
    Matrix4x4(m.map(f32::to_bits))
}

fn position(m: &Matrix4x4) -> [f32; 3] {
    [m.0[12], m.0[13], m.0[14]].map(f32::from_bits)
}

fn database(names: &[&str]) -> PrototypeDatabase {
    PrototypeDatabase {
        paths: vec![],
        strings: names
            .iter()
            .enumerate()
            .map(|(i, s)| StringEntry { id: i as u32, text: s.to_string() })
            .collect(),
        resources: vec![],
        materials: vec![],
        model_visuals: vec![],
        visual_count: 0,
    }
}

fn node(name_id: u32, pose: Option<Matrix4x4>) -> NodePose {
    NodePose { name_id, pose }
}

#[test]
fn hardpoints_are_collected_with_their_section() {
    let db = database(&["HP_AGM_1", "Root", "HP_AGM_2"]);
    let parts = vec![
        HullPart {
            name: "JSB039_Bow".to_string(),
            nodes: vec![
                node(0, Some(moved(1.0, 0.0, 0.0))),
                node(1, Some(moved(9.0, 0.0, 0.0))),
                node(2, None),
                node(77, Some(moved(8.0, 0.0, 0.0))),
            ],
        },
        HullPart { name: "Whole".to_string(), nodes: vec![node(0, Some(moved(2.0, 0.0, 0.0)))] },
    ];
    let table = mounts::collect_hardpoints(&db, &parts, "JSB039");
    assert_eq!(table.len(), 1);
    assert_eq!(table[0].name, "HP_AGM_1");
    assert_eq!(table[0].value.section, "Full");
    assert_eq!(position(&table[0].value.transform), [2.0, 0.0, 0.0]);
    let bow = mounts::collect_hardpoints(&db, &parts[..1].iter().map(copy_part).collect(), "JSB039");
    assert_eq!(bow[0].value.section, "Bow");
}

fn copy_part(p: &HullPart) -> HullPart {
    HullPart {
        name: p.name.clone(),
        nodes: p.nodes.iter().map(|n| node(n.name_id, n.pose)).collect(),
    }
}

fn mount(hp: &str, model: &str) -> MountPoint {
    MountPoint {
        hp_name: hp.to_string(),
        model_path: model.to_string(),
        species: Some(MountSpecies::Main),
        display_group: Some("Main Battery".to_string()),
        ammo_list: vec!["PAPA001".to_string()],
        min_pitch: 0,
        pitch_sin: 0,
        pitch_cos: 0,
        mount_armor: Some(vec![ArmorPlate { zone: 7, thickness: 25.0f32.to_bits() }]),
    }
}

fn sub_model(name: &str, lods: usize) -> OwnedSubModel {
    let lod = || Lod { extent: 0, casts_shadow: false, render_set_names: vec![] };
    OwnedSubModel {
        name: name.to_string(),
        visual: VisualPrototype {
            nodes: VisualNodes {
                name_map_name_ids: vec![],
                name_map_node_ids: vec![],
                name_ids: vec![],
                matrices: vec![],
                parent_ids: vec![],
            },
            merged_geometry_path_id: 0,
            underwater_model: false,
            abovewater_model: false,
            bounding_box: BoundingBox { min: [0; 3], max: [0; 3] },
            render_sets: vec![],
            lods: (0..lods).map(|_| lod()).collect(),
        },
        geom_bytes: vec![],
        splash_bytes: None,
    }
}

fn model(path: &str, hardpoints: &[(&str, Matrix4x4)], bone: Option<Matrix4x4>) -> TurretModel {
    TurretModel {
        model_path: path.to_string(),
        sub_model: sub_model(path, 1),
        hardpoints: hardpoints
            .iter()
            .map(|(n, m)| NamedSlot { name: n.to_string(), value: *m })
            .collect(),
        blend_bone: bone,
    }
}

#[test]
fn mounts_are_resolved() {
    let db = database(&["HP_AGM_3", "HP_AGM", "HP_CAT_1"]);
    let parts = vec![HullPart {
        name: "JSB039_Bow".to_string(),
        nodes: vec![
            node(0, Some(moved(10.0, 0.0, 0.0))),
            node(1, Some(moved(99.0, 0.0, 0.0))),
            node(2, Some(matrix(quarter_turn()))),
        ],
    }];
    let table = mounts::collect_hardpoints(&db, &parts, "JSB039");
    let list = vec![
        mount("HP_AGM_3", "a/gun.model"),
        mount("HP_AGM_3_HP_AGA_1", "a/aa.model"),
        mount("HP_CAT_1", "x/catapult/c.model"),
        mount("HP_AGM_9", "a/gun.model"),
        mount("HP_AGM_3", "a/unknown.model"),
        mount("HP_AGM_3", ""),
    ];
    assert_eq!(
        mounts::unique_model_paths(&list),
        ["a/gun.model", "a/aa.model", "x/catapult/c.model", "a/unknown.model"]
    );
    let models = vec![
        model("a/gun.model", &[("HP_AGA_1", moved(0.0, 3.0, 0.0))], None),
        model("a/aa.model", &[], Some(matrix(quarter_turn()))),
        model("x/catapult/c.model", &[], Some(matrix(quarter_turn()))),
    ];
    // The last model with a path at the parent hardpoint is the one that carries.
    assert!(mounts::resolve_compound_hp("HP_AGM_3_HP_AGA_1", &table, &list, &models).is_none());
    let list: Vec<MountPoint> = list.into_iter().filter(|m| m.model_path != "a/unknown.model").collect();
    let (parent, child) =
        mounts::resolve_compound_hp("HP_AGM_3_HP_AGA_1", &table, &list, &models).unwrap();
    assert_eq!(table[parent].name, "HP_AGM_3");
    assert_eq!(position(&child), [0.0, 3.0, 0.0]);
    assert!(mounts::resolve_compound_hp("HP_AGM_3", &table, &list, &models).is_none());

    let plans = mounts::plan_mounts(&table, &list, &models);
    assert_eq!(plans.iter().map(|p| p.mount).collect::<Vec<_>>(), [0, 1, 2]);
    assert_eq!(plans.iter().map(|p| p.model).collect::<Vec<_>>(), [0, 1, 2]);
    assert_eq!(plans[1].parent_section, "Bow");
    assert_eq!(position(&plans[1].armor_transform), [10.0, 3.0, 0.0]);
    // The rotation of the bone is undone, and the position stays.
    assert_eq!(position(&plans[1].transform), [10.0, 3.0, 0.0]);
    assert_eq!(f32::from_bits(plans[1].transform.0[2]), 1.0);
    // A catapult keeps its position alone.
    assert_eq!(position(&plans[2].transform), [5.0, 6.0, 7.0]);
    assert_eq!(plans[2].transform.0[..12], IDENTITY_4X4[..12]);
    assert_eq!(f32::from_bits(plans[2].armor_transform.0[2]), -1.0);

    let loaded = mounts::load_mounts(&db, &table, &list, &models);
    assert_eq!(loaded.len(), 3);
    assert_eq!(loaded[1].hp_name, "HP_AGM_3_HP_AGA_1");
    assert_eq!(loaded[1].parent_section.as_deref(), Some("Bow"));
    assert_eq!(loaded[1].turret_model_index, 1);
    assert_eq!(loaded[1].species, Some(MountSpecies::Main));
    assert_eq!(loaded[1].display_group.as_deref(), Some("Main Battery"));
    assert_eq!(loaded[1].model_path, "a/aa.model");
    assert_eq!(loaded[1].ammo_list, ["PAPA001"]);
    assert_eq!(loaded[1].mount_armor, list[1].mount_armor);
    assert_eq!(loaded[1].transform.unwrap().0, plans[1].transform.0);
    assert_eq!(loaded[2].armor_transform.unwrap().0, plans[2].armor_transform.0);
    assert!(loaded.iter().all(|m| m.barrel_pitch.is_none()));
}

#[test]
fn barrels_of_mounts_are_pitched() {
    let db = database(&["HP_AGM_1", "Rotate_X", "Barrel"]);
    let parts = vec![HullPart {
        name: "JSB039_Bow".to_string(),
        nodes: vec![node(0, Some(moved(0.0, 0.0, 0.0)))],
    }];
    let table = mounts::collect_hardpoints(&db, &parts, "JSB039");
    let mut turret = model("a/gun.model", &[("Rotate_X", moved(0.0, 2.0, 3.0))], None);
    turret.sub_model.visual.nodes = VisualNodes {
        name_map_name_ids: vec![1, 2],
        name_map_node_ids: vec![0, 1],
        name_ids: vec![1, 2],
        matrices: vec![moved(0.0, 0.0, 0.0), moved(0.0, 0.0, 0.0)],
        parent_ids: vec![0xFFFF, 0],
    };
    turret.sub_model.visual.render_sets = vec![RenderSet {
        name_id: 0,
        material_name_id: 0,
        vertices_mapping_id: 0,
        indices_mapping_id: 0,
        material_mfm_path_id: 0,
        skinned: true,
        node_name_ids: vec![2],
    }];
    let models = vec![turret];
    let aimed = |min_pitch: f32| {
        let mut m = mount("HP_AGM_1", "a/gun.model");
        m.min_pitch = min_pitch.to_bits();
        m.pitch_sin = (-0.5f32).to_bits();
        m.pitch_cos = 0.8660254f32.to_bits();
        mounts::load_mounts(&db, &table, &vec![m], &models).remove(0).barrel_pitch
    };
    assert_eq!(aimed(30.0).unwrap().barrel_bone_indices, [0]);
    assert_eq!(f32::from_bits(aimed(30.0).unwrap().pitch_matrix[5]), 0.8660254);
    assert!(aimed(0.0).is_none());
    assert!(aimed(-5.0).is_none());
    assert!(aimed(f32::NAN).is_none());
}

#[test]
fn assets_are_classified_by_path() {
    let parts = |p: &str| {
        let t = placements::parse_mount_path_taxonomy(p);
        (t.scope, t.category, t.subcategory)
    };
    let some = |s: &str| Some(s.to_string());
    assert_eq!(
        parts("content/gameplay/usa/gun/main/AGM034_16in50_Mk7/AGM034_16in50_Mk7.model"),
        (some("usa"), some("gun"), some("main"))
    );
    assert_eq!(
        parts("/content/gameplay/common/misc/AM001/AM001.model"),
        (some("common"), some("misc"), None)
    );
    assert_eq!(
        parts("content/gameplay/usa/gun/main/long/AGM034/AGM034.visual"),
        (some("usa"), some("gun"), some("main/long"))
    );
    assert_eq!(parts(""), (None, None, None));
    assert_eq!(parts("content/gameplay/"), (None, None, None));
    assert_eq!(parts("x.model"), (None, None, None));
}

fn named_model(name: &str) -> TurretModel {
    TurretModel { sub_model: sub_model(name, 1), ..model("", &[], None) }
}

fn resolved(model: usize, species: Option<MountSpecies>, at: Option<Matrix4x4>) -> ResolvedMount {
    ResolvedMount {
        hp_name: "HP_AGM_1".to_string(),
        parent_section: Some("Bow".to_string()),
        turret_model_index: model,
        transform: at,
        armor_transform: at,
        species,
        display_group: None,
        barrel_pitch: None,
        model_path: "content/gameplay/usa/gun/main/AGM/AGM.model".to_string(),
        ammo_list: vec!["PAPA001".to_string()],
        mount_armor: None,
    }
}

#[test]
fn placements_are_numbered_and_sorted() {
    let list = vec![
        resolved(0, Some(MountSpecies::Main), Some(moved(1.0, 2.0, 3.0))),
        resolved(1, Some(MountSpecies::Secondary), None),
        resolved(0, Some(MountSpecies::AAircraft), None),
        resolved(0, Some(MountSpecies::Torpedo), None),
        resolved(1, Some(MountSpecies::Decoration), None),
        resolved(1, None, None),
        resolved(0, Some(MountSpecies::Main), None),
    ];
    let models = vec![named_model("AGM034"), named_model("AGS001")];
    let r = placements::build_placements("Iowa", &list, &models);
    assert_eq!(r.turrets[0].instance_id, "Iowa_AGM034_00");
    assert_eq!(r.turrets[1].instance_id, "Iowa_AGM034_03");
    assert_eq!(r.secondaries[0].instance_id, "Iowa_AGS001_00");
    assert_eq!(r.antiair[0].instance_id, "Iowa_AGM034_01");
    assert_eq!(r.torpedoes[0].instance_id, "Iowa_AGM034_02");
    assert_eq!(r.accessories.len(), 2);
    assert_eq!(r.accessories[1].species, None);
    let first = &r.turrets[0];
    assert_eq!(first.asset_id, "AGM034");
    assert_eq!(first.species, Some("Main"));
    assert_eq!(first.ammo_ids, ["PAPA001"]);
    assert_eq!(first.parent_section.as_deref(), Some("Bow"));
    assert_eq!(position(&first.matrix), [15.0, 30.0, -45.0]);
    assert_eq!(position(&r.turrets[1].matrix), [0.0, 0.0, 0.0]);
    assert_eq!(placements::choose_section(Some(MountSpecies::Search)), Section::Accessories);
}

fn part(hp: &str, model: usize, group: Option<&str>) -> ResolvedMount {
    ResolvedMount {
        hp_name: hp.to_string(),
        display_group: group.map(str::to_string),
        ..resolved(model, None, None)
    }
}

#[test]
fn exports_contain_what_the_mode_says() {
    let parts = vec![
        part("HP_1", 0, Some("Main Battery")),
        part("HP_2", 1, None),
        part("HP_3", 0, Some("Main Battery")),
    ];
    assert_eq!(ship::embedded_mounts(&parts, AccessoryMode::Embed), [0, 1, 2]);
    assert_eq!(ship::embedded_mounts(&parts, AccessoryMode::MainOnly), [0, 2]);
    assert!(ship::embedded_mounts(&parts, AccessoryMode::Exclude).is_empty());
    assert_eq!(ship::mount_group(&parts[1]), "Other");
    let hulls = vec![sub_model("Bow", 1)];
    let models = vec![named_model("AGM034"), named_model("AM001")];
    let plans = ship::plan_sub_models(&hulls, &parts, &models, AccessoryMode::MainOnly);
    let seen: Vec<(&str, &str)> = plans.iter().map(|p| (p.name.as_str(), p.group.as_str())).collect();
    assert_eq!(
        seen,
        [("Bow", "Hull"), ("HP_1 (AGM034)", "Main Battery"), ("HP_3 (AGM034)", "Main Battery")]
    );
    assert_eq!(plans[0].source, PartSource::Hull(0));
    assert_eq!(plans[2].source, PartSource::Mount(2));
    assert_eq!(ship::instance_name("Turret", "HP_1"), "Turret [HP_1]");
    let three = vec![sub_model("A", 2), sub_model("B", 4), sub_model("C", 3)];
    assert_eq!(ship::hull_lod_count(&three), 4);
    assert_eq!(ship::hull_lod_count(&vec![]), 1);
}

#[test]
fn default_options_embed_everything() {
    let o = ShipExportOptions::default();
    assert_eq!(o.lod, 0);
    assert!(o.textures && !o.damaged && !o.all_render_sets);
    assert_eq!(o.accessory_mode, AccessoryMode::Embed);
    assert!(o.loads_textures());
    let raw = ShipExportOptions { textures: false, raw_dds_dir: Some("out".to_string()), ..o };
    assert!(raw.loads_textures());
    let none = ShipExportOptions { raw_dds_dir: None, ..raw };
    assert!(!none.loads_textures());
}

fn at(x: f32, p0_hash: u32, p1_hash: u32) -> LocatedPlacement {
    let m = moved(x, 2.0, 3.0);
    LocatedPlacement {
        file: 0,
        placement: SkelExtPlacement {
            record_offset: 0x1C0,
            record_type: 5,
            record_count: 2,
            matrix_index: 1,
            p0_hash,
            p1_hash,
            matrix: m.0,
        },
    }
}

fn files() -> Vec<OwnedSkelExt> {
    vec![OwnedSkelExt {
        segment: "Bow".to_string(),
        vfs_path: "a/b.skel_ext".to_string(),
        bytes: vec![0; 16],
    }]
}

fn bones(list: &[(u32, Matrix4x4)], blend_bone: Option<Matrix4x4>) -> Option<Skeleton> {
    let bones = list.iter().map(|(h, m)| BoneRest { p1_hash: *h, rest: *m }).collect();
    Some(Skeleton { bones, blend_bone })
}

#[test]
fn candidates_stand_once_in_each_cell() {
    let list = vec![at(1.0, 7, 0xAB), at(1.004, 7, 1), at(1.02, 7, 1), at(1.0, 8, 1)];
    let r = skel_ext_candidates::select_candidates(&files(), &list, &None);
    assert_eq!(r.iter().map(|c| c.placement).collect::<Vec<_>>(), [0, 2, 3]);
    assert_eq!(r[0].segment, "Bow");
    assert_eq!(r[0].record_offset, "0x1C0");
    assert_eq!(r[0].p0_hash, "0x00000007");
    assert_eq!(r[0].p1_hash, "0x000000AB");
    assert_eq!((r[0].record_type, r[0].record_count, r[0].matrix_index), (5, 2, 1));
    assert_eq!(position(&r[0].matrix), [15.0, 30.0, -45.0]);
    assert!(skel_ext_candidates::collect_placements(&files()).is_empty());
}

#[test]
fn candidates_follow_their_bone() {
    let rest = moved(10.0, 0.0, 0.0);
    let m = moved(1.0, 2.0, 3.0).0;
    let plain = skel_ext_candidates::emit_matrix(&m, Some(rest), false);
    assert_eq!(position(&plain), [-165.0, 30.0, -45.0]);
    assert_eq!(plain.0[0], 1.0f32.to_bits());
    let mirrored = skel_ext_candidates::emit_matrix(&m, Some(rest), true);
    assert_eq!(position(&mirrored), [165.0, 30.0, 45.0]);
    assert_eq!(f32::from_bits(mirrored.0[0]), -1.0);
    assert_eq!(f32::from_bits(mirrored.0[10]), -1.0);
    let mut mirror = IDENTITY_4X4;
    mirror[0] = (-1.0f32).to_bits();
    assert!(bones(&[], Some(Matrix4x4(mirror))).unwrap().is_mirrored());
    assert!(!bones(&[], Some(rest)).unwrap().is_mirrored());
    assert!(!bones(&[], None).unwrap().is_mirrored());
    let list = vec![at(1.0, 7, 0xAB), at(2.0, 7, 1)];
    let skeleton = bones(&[(0xAB, rest), (0xAB, moved(0.0, 0.0, 0.0))], Some(Matrix4x4(mirror)));
    let r = skel_ext_candidates::select_candidates(&files(), &list, &skeleton);
    assert_eq!(position(&r[0].matrix), [165.0, 30.0, 45.0]);
    assert_eq!(position(&r[1].matrix), [30.0, 30.0, -45.0]);
}

#[test]
fn missing_bones_are_ranked() {
    let list: Vec<LocatedPlacement> =
        (0..30).map(|i| at(i as f32, i, if i < 3 { 500 } else { 100 + i / 2 })).collect();
    let skeleton = bones(&[(114, moved(0.0, 0.0, 0.0))], None);
    let chosen = skel_ext_candidates::select_candidates(&files(), &list, &skeleton);
    assert_eq!(chosen.len(), 30);
    let missing =
        skel_ext_candidates::unresolved_bones(&list, skeleton.as_ref().unwrap(), &chosen);
    assert_eq!(missing[0], MissingBone { p1_hash: 500, count: 3 });
    assert_eq!(missing[1], MissingBone { p1_hash: 102, count: 2 });
    assert_eq!(missing.last().unwrap(), &MissingBone { p1_hash: 101, count: 1 });
    assert_eq!(missing.len(), 14);
    assert_eq!(missing.iter().map(|m| m.count).sum::<u64>(), 28);
    let many: Vec<LocatedPlacement> = (0..40).map(|i| at(i as f32, i, i)).collect();
    let chosen = skel_ext_candidates::select_candidates(&files(), &many, &skeleton);
    let top = skel_ext_candidates::unresolved_bones(&many, skeleton.as_ref().unwrap(), &chosen);
    assert_eq!(top.len(), 16);
    assert_eq!(top[15], MissingBone { p1_hash: 15, count: 1 });
}

#[test]
fn manifests_describe_their_files() {
    let none = skel_ext_candidates::build_manifest(&vec![], &None);
    assert_eq!((none.schema_version, none.file_count), (1, 0));
    assert!(none.details.is_none() && none.candidates.is_empty());
    let plain = skel_ext_candidates::build_manifest(&files(), &None);
    let details = plain.details.unwrap();
    assert_eq!(plain.file_count, 1);
    assert_eq!(details.segments, ["Bow"]);
    assert_eq!(details.raw_matrix_count, 0);
    assert_eq!(details.note, "to_metric_glft (legacy: S\u{b7}M\u{b7}S + \u{d7}15)");
    assert!(!details.host_mirrors);
    let with_bones = skel_ext_candidates::build_manifest(&files(), &bones(&[], None));
    assert_eq!(with_bones.schema_version, 3);
    assert!(with_bones.details.unwrap().note.starts_with("bone_composed + {Ry(180\u{b0}) post"));
    let ship = SkelExtSubject::Model { stem: "AGM".to_string(), display_name: None };
    assert_eq!(ship.key(), "model");
}
