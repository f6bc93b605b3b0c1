use wowsunpack::export::camos::CamoCatalog;
use wowsunpack::export::camos::CamoEntry;
use wowsunpack::export::context::ShipAssets;
use wowsunpack::export::context::ShipError;
use wowsunpack::export::context::ShipFiles;
use wowsunpack::export::context::ShipModelContext;
use wowsunpack::export::hulls::HullComponent;
use wowsunpack::export::hulls::HullUpgrade;
use wowsunpack::export::mounts::HullPart;
use wowsunpack::export::mounts::MountPoint;
use wowsunpack::export::mounts::NodePose;
use wowsunpack::export::mounts::TurretModel;
use wowsunpack::export::mounts::IDENTITY_4X4;
use wowsunpack::export::ship::AccessoryMode;
use wowsunpack::export::ship::PartSource;
use wowsunpack::export::ship::ShipExportOptions;
use wowsunpack::export::ships::ParamInfo;
use wowsunpack::export::ships::VehicleInfo;
use wowsunpack::export::skel_ext_candidates::OwnedSkelExt;
use wowsunpack::export::sub_models::OwnedSubModel;
use wowsunpack::export::texture_set::TextureSet;
use wowsunpack::export::texture_set::TiledScheme;
use wowsunpack::game_params::keys::ComponentType;
use wowsunpack::game_params::types::ArmorPlate;
use wowsunpack::game_params::types::HitLocation;
use wowsunpack::game_params::types::MountSpecies;
use wowsunpack::game_params::types::Species;
use wowsunpack::models::assets_bin::PathEntry;
use wowsunpack::models::assets_bin::PrototypeDatabase;
use wowsunpack::models::assets_bin::StringEntry;
use wowsunpack::models::visual::BoundingBox;
use wowsunpack::models::visual::Lod;
use wowsunpack::models::visual::Matrix4x4;
use wowsunpack::models::visual::RenderSet;
use wowsunpack::models::visual::VisualNodes;
use wowsunpack::models::visual::VisualPrototype;
use wowsunpack::slots::NamedSlot;

const DIR: &str = "JSB039_Yamato_1945";
const MODEL: &str = "content/gameplay/japan/ship/battleship/JSB039_Yamato_1945/JSB039.model";
const GUN: &str = "content/gameplay/japan/gun/main/JGM001/JGM001.model";
const MISC: &str = "content/gameplay/common/misc/CM001/CM001.model";

fn param(index: &str, shown: &str, vehicle: Option<VehicleInfo>) -> ParamInfo {
    ParamInfo {
        index: index.to_string(),
        name: format!("{index}_Name"),
        nation: "Japan".to_string(),
        species: Some(Species::Battleship),
        vehicle,
        exterior: None,
        display_name: Some(shown.to_string()),
    }
}

fn plate(zone: u32, mm: f32) -> ArmorPlate {
    ArmorPlate { zone, thickness: mm.to_bits() }
}

fn assets() -> ShipAssets {
    let path = |self_id: u64, dir: &str, name: &str| PathEntry {
        name: name.to_string(),
        full_path: format!("/content/{dir}/{name}"),
        self_id,
    };
    let hull = |name: &str| HullUpgrade {
        name: name.to_string(),
        components: vec![HullComponent {
            kind: ComponentType::Hull,
            name: Some("A_Hull".to_string()),
            mount_count: None,
        }],
    };
    let yamato = VehicleInfo {
        level: 10,
        model_path: Some(MODEL.to_string()),
        permoflages: vec!["PCEM001_Steel".to_string()],
        armor: Some(vec![plate(1, 410.0), plate(2, 650.0)]),
        hit_locations: Some(vec![HitLocation {
            name: "Citadel".to_string(),
            attributes: vec![("hlType".to_string(), "citadel".to_string())],
        }]),
    };
    let steel = ParamInfo {
        index: "PCEM001".to_string(),
        name: "PCEM001_Steel".to_string(),
        exterior: Some(Some("mat_Steel".to_string())),
        ..param("", "Steel", None)
    };
    let tile = ParamInfo {
        index: "PCEC001".to_string(),
        name: "PCEC001_Tile".to_string(),
        exterior: Some(Some("camo_Tile".to_string())),
        ..param("", "Tile", None)
    };
    ShipAssets {
        db: PrototypeDatabase {
            paths: vec![
                path(1, DIR, "JSB039_Yamato_1945_Stern.visual"),
                path(2, DIR, "JSB039_Yamato_1945_Bow.visual"),
                path(3, "m", "Hull.mfm"),
                path(4, "m", "Gun.mfm"),
            ],
            strings: vec![
                StringEntry { id: 0, text: "HP_JGM_1".to_string() },
                StringEntry { id: 1, text: "HP_CM_1".to_string() },
            ],
            resources: vec![],
            materials: vec![],
            model_visuals: vec![],
            visual_count: 0,
        },
        params: vec![steel, param("PJSB018", "Yamato", Some(yamato)), tile],
        upgrades: vec![vec![], vec![hull("PJUH902_B"), hull("PJUH901_A")], vec![]],
    }
}

fn catalog() -> Option<CamoCatalog> {
    let entry = |name: &str, texture: &str, tiled: bool| CamoEntry {
        camo_name: name.to_string(),
        textures: vec![texture.to_string()],
        tiled,
        color_scheme: None,
    };
    Some(CamoCatalog {
        entries: vec![entry("mat_Steel", "s.dds", false), entry("camo_Tile", "t.dds", true)],
        color_schemes: vec![],
        translations: vec![],
    })
}

#[test]
fn assets_answer_for_their_ships() {
    let a = assets();
    assert_eq!(a.find_ship("yamato").unwrap().model_dir, DIR);
    let upgrades = a.list_hull_upgrades("PJSB018").unwrap();
    let names: Vec<&str> = upgrades.iter().map(|u| u.name.as_str()).collect();
    assert_eq!(names, ["PJUH901_A", "PJUH902_B"]);
    assert_eq!(a.select_hull(DIR, None), Some((1, 1)));
    assert_eq!(a.select_hull(DIR, Some("PJUH902_B")), Some((1, 0)));
    assert_eq!(a.select_hull(DIR, Some("A")), Some((1, 1)));
    assert_eq!(a.select_hull(DIR, Some("nothing")), None);
    assert_eq!(a.select_hull("nobody", None), None);
    assert_eq!(a.ship_of_vehicle(Some(MODEL)).unwrap().param_index, "PJSB018");
    let visuals = a.find_visuals(DIR).unwrap();
    assert_eq!(visuals[0].name, "JSB039_Yamato_1945_Bow");
    assert_eq!(visuals.len(), 2);
    let (own, universal) = a.find_camos(DIR, &catalog());
    assert_eq!((own.len(), universal.len()), (1, 1));
    let (own, universal) = a.find_camos(DIR, &None);
    assert!(own.is_empty() && universal.is_empty());
    assert_eq!(
        a.list_texture_schemes(DIR, vec!["kobayashi".to_string()], &catalog()),
        ["kobayashi", "Steel (mat_camo)", "camo_Tile (universal/tiled)"]
    );
    assert_eq!(a.list_texture_schemes(DIR, vec![], &None), Vec::<String>::new());
}

#[test]
fn failures_say_why() {
    let mut a = assets();
    let search = a.list_hull_upgrades("Bismarck").unwrap_err();
    assert!(matches!(&search, ShipError::Search(_)));
    assert_eq!(
        search.message(),
        "No ship found matching 'Bismarck'. Try using the model directory name (e.g. 'JSB039_Yamato_1945')."
    );
    assert_eq!(
        a.find_vehicle("nobody").unwrap_err().message(),
        "Ship 'nobody' not found in GameParams"
    );
    assert_eq!(a.ship_of_vehicle(None).unwrap_err().message(), "Vehicle has no model_path");
    assert_eq!(
        a.find_visuals("nobody").unwrap_err().message(),
        "No .visual files found for 'nobody'."
    );
    // A model directory alone makes a ship, but no hull upgrades.
    a.params.remove(1);
    a.upgrades.remove(1);
    let unknown = a.list_hull_upgrades(DIR).unwrap_err();
    assert!(matches!(&unknown, ShipError::NotInParams { model_dir } if model_dir == DIR));
}

fn sub_model(name: &str, mfm: u64, lods: usize, splash: Option<Vec<u8>>) -> OwnedSubModel {
    let lod = || Lod { extent: 0, casts_shadow: false, render_set_names: vec![] };
    OwnedSubModel {
        name: name.to_string(),
        visual: VisualPrototype {
            nodes: VisualNodes {
                name_map_name_ids: vec![],
                name_map_node_ids: vec![],
                name_ids: vec![],
                matrices: vec![],
                parent_ids: vec![],
            },
            merged_geometry_path_id: 0,
            underwater_model: false,
            abovewater_model: false,
            bounding_box: BoundingBox { min: [0; 3], max: [0; 3] },
            render_sets: vec![RenderSet {
                name_id: 0,
                material_name_id: 0,
                vertices_mapping_id: 0,
                indices_mapping_id: 0,
                material_mfm_path_id: mfm,
                skinned: false,
                node_name_ids: vec![],
            }],
            lods: (0..lods).map(|_| lod()).collect(),
        },
        geom_bytes: name.as_bytes().to_vec(),
        splash_bytes: splash,
    }
}

fn load(a: &ShipAssets, mode: AccessoryMode) -> ShipModelContext {
    let turret = |path: &str, name: &str| TurretModel {
        model_path: path.to_string(),
        sub_model: sub_model(name, 4, 1, None),
        hardpoints: vec![],
        blend_bone: None,
    };
    let point = |hp: &str, path: &str, species: MountSpecies, group: Option<&str>| MountPoint {
        hp_name: hp.to_string(),
        model_path: path.to_string(),
        species: Some(species),
        display_group: group.map(str::to_string),
        ammo_list: vec![],
        min_pitch: 0,
        pitch_sin: 0,
        pitch_cos: 0,
        mount_armor: group.map(|_| vec![plate(9, 250.0)]),
    };
    let node = |name_id: u32| NodePose { name_id, pose: Some(Matrix4x4(IDENTITY_4X4)) };
    let files = ShipFiles {
        hull_parts: vec![
            sub_model("JSB039_Yamato_1945_Bow", 3, 2, None),
            sub_model("JSB039_Yamato_1945_Stern", 3, 4, Some(vec![7])),
        ],
        hull_nodes: vec![HullPart { name: format!("{DIR}_Bow"), nodes: vec![node(0), node(1)] }],
        mount_points: vec![
            point("HP_JGM_1", GUN, MountSpecies::Main, Some("Main Battery")),
            point("HP_CM_1", MISC, MountSpecies::Decoration, None),
            point("HP_JGM_9", GUN, MountSpecies::Main, Some("Main Battery")),
        ],
        turret_models: vec![turret(GUN, "JGM001"), turret(MISC, "CM001")],
        skel_ext_files: vec![OwnedSkelExt {
            segment: "Bow".to_string(),
            vfs_path: "a/Bow.skel_ext".to_string(),
            bytes: vec![0; 16],
        }],
    };
    let options = ShipExportOptions { accessory_mode: mode, ..ShipExportOptions::default() };
    let vehicle = a.params[a.find_vehicle(DIR).unwrap()].vehicle.as_ref();
    a.assemble_ship(a.find_ship(DIR).unwrap(), vehicle, files, options, &catalog())
}

#[test]
fn loaded_ships_list_their_parts() {
    let a = assets();
    let s = load(&a, AccessoryMode::Exclude);
    assert_eq!(s.info().param_index, "PJSB018");
    assert_eq!(s.hull_part_names(), ["JSB039_Yamato_1945_Bow", "JSB039_Yamato_1945_Stern"]);
    assert_eq!((s.mount_count(), s.unique_turret_count()), (2, 2));
    assert_eq!(s.turret_model_names(), ["JGM001", "CM001"]);
    assert_eq!(s.hull_geom_bytes()[1], b"JSB039_Yamato_1945_Stern");
    assert_eq!(s.turret_geom_bytes(), [&b"JGM001"[..], &b"CM001"[..]]);
    assert_eq!(s.hull_lod_count(), 4);
    assert_eq!(s.hull_splash_bytes(), Some(&[7u8][..]));
    let schemes: Vec<&str> = s.mat_camo_schemes.iter().map(|c| c.display_name.as_str()).collect();
    assert_eq!(schemes, ["Steel", "camo_Tile"]);
    // What the export contains makes no difference to the placements.
    for mode in [AccessoryMode::Embed, AccessoryMode::MainOnly, AccessoryMode::Exclude] {
        let placed = load(&a, mode).list_placements();
        assert_eq!(placed.turrets.len(), 1);
        assert_eq!(placed.turrets[0].instance_id, "Yamato_JGM001_00");
        assert_eq!(placed.accessories[0].instance_id, "Yamato_CM001_00");
    }
    let decorations = s.list_decorations();
    assert_eq!((decorations.schema_version, decorations.file_count), (1, 1));
    let entries = s.list_materials(&a.db);
    let stems: Vec<(&str, &str)> =
        entries.iter().map(|e| (e.sub_model.as_str(), e.mfm_stem.as_str())).collect();
    assert_eq!(
        stems,
        [("JSB039_Yamato_1945_Bow", "Hull"), ("JSB039_Yamato_1945_Stern", "Hull")]
    );
}

#[test]
fn exports_take_the_materials_of_their_pieces() {
    let a = assets();
    let seen = |mode: AccessoryMode| {
        let s = load(&a, mode);
        let pieces: Vec<String> = s.list_pieces().into_iter().map(|p| p.group).collect();
        let stems: Vec<String> =
            s.list_material_files(&a.db).into_iter().map(|m| m.stem).collect();
        (pieces, stems)
    };
    let (pieces, stems) = seen(AccessoryMode::Embed);
    assert_eq!(pieces, ["Hull", "Hull", "Main Battery", "Other"]);
    assert_eq!(stems, ["Hull", "Hull", "Gun", "Gun"]);
    let (pieces, stems) = seen(AccessoryMode::MainOnly);
    assert_eq!(pieces, ["Hull", "Hull", "Main Battery"]);
    assert_eq!(stems, ["Hull", "Hull", "Gun"]);
    let (pieces, stems) = seen(AccessoryMode::Exclude);
    assert_eq!(pieces, ["Hull", "Hull"]);
    assert_eq!(stems, ["Hull", "Hull"]);
}

#[test]
fn armor_comes_from_the_pieces_of_the_export() {
    let a = assets();
    let s = load(&a, AccessoryMode::MainOnly);
    assert_eq!(s.armor_map(), Some(&vec![plate(1, 410.0), plate(2, 650.0)]));
    let locations = s.hit_locations().unwrap();
    assert_eq!(locations[0].name, "Citadel");
    assert_eq!(locations[0].attributes[0].1, "citadel");
    let armor = s.list_armor_pieces();
    let sources: Vec<PartSource> = armor.iter().map(|p| p.source).collect();
    assert_eq!(sources, [PartSource::Hull(0), PartSource::Hull(1), PartSource::Mount(0)]);
    let pieces: Vec<PartSource> = s.list_pieces().iter().map(|p| p.source).collect();
    assert_eq!(sources, pieces);
    assert!(armor[1].transform.is_none() && armor[1].mount_armor.is_none());
    assert_eq!(armor[2].hp_name.as_deref(), Some("HP_JGM_1"));
    assert_eq!(armor[2].transform.unwrap().0, IDENTITY_4X4);
    assert_eq!(armor[2].mount_armor, Some(vec![plate(9, 250.0)]));
    assert_eq!(load(&a, AccessoryMode::Exclude).list_armor_pieces().len(), 2);
    assert_eq!(load(&a, AccessoryMode::Embed).list_armor_pieces()[3].mount_armor, None);
}

#[test]
fn exports_without_textures_hold_none() {
    let loaded = || TextureSet {
        base: vec![NamedSlot { name: "Hull".to_string(), value: vec![1] }],
        ..TextureSet::empty()
    };
    let tiled = vec![TiledScheme { scheme: 0, entry: 0 }];
    let raw = ShipExportOptions {
        textures: false,
        raw_dds_dir: Some("raw".to_string()),
        ..ShipExportOptions::default()
    };
    assert!(raw.loads_textures());
    let (set, schemes) = raw.embedded_textures(loaded(), tiled.clone());
    assert!(set.base.is_empty() && set.normal_base.is_empty() && set.occlusion_base.is_empty());
    assert!(set.metallic_roughness_base.is_empty() && set.camo_schemes.is_empty());
    assert!(schemes.is_empty());
    let (set, schemes) = ShipExportOptions::default().embedded_textures(loaded(), tiled.clone());
    assert_eq!(set.base[0].value, [1]);
    assert_eq!(schemes, tiled);
    // The same of a whole export.
    let a = assets();
    let mut s = load(&a, AccessoryMode::MainOnly);
    let plan = s.plan_export(loaded(), tiled.clone());
    assert_eq!((plan.pieces.len(), plan.armor.len()), (3, 3));
    assert_eq!((plan.textures.base.len(), plan.tiled_schemes.len()), (1, 1));
    s.options.textures = false;
    s.options.raw_dds_dir = Some("raw".to_string());
    let plan = s.plan_export(loaded(), tiled);
    assert_eq!((plan.pieces.len(), plan.armor.len()), (3, 3));
    assert!(plan.textures.base.is_empty() && plan.tiled_schemes.is_empty());
}

#[test]
fn displays_show_every_piece() {
    let a = assets();
    let pieces = load(&a, AccessoryMode::Exclude).list_shown_pieces();
    let sources: Vec<PartSource> = pieces.iter().map(|p| p.source).collect();
    assert_eq!(
        sources,
        [PartSource::Hull(0), PartSource::Hull(1), PartSource::Mount(0), PartSource::Mount(1)]
    );
    assert!(pieces[1].transform.is_none() && pieces[1].hp_name.is_none());
    assert_eq!(pieces[3].hp_name.as_deref(), Some("HP_CM_1"));
    assert_eq!(pieces[2].mount_armor, Some(vec![plate(9, 250.0)]));
    assert!(pieces[0].mount_armor.is_none() && pieces[3].mount_armor.is_none());
    let mut expected = IDENTITY_4X4.map(f32::from_bits);
    for k in [2, 6, 8, 9, 14] {
        expected[k] = -0.0;
    }
    assert_eq!(pieces[2].transform.unwrap().0, expected.map(f32::to_bits));
    assert_eq!(pieces[2].armor_transform.unwrap().0, expected.map(f32::to_bits));
}
