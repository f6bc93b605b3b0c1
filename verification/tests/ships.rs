use wowsunpack::build_info;
use wowsunpack::export::camos;
use wowsunpack::export::camos::CamoCatalog;
use wowsunpack::export::camos::CamoEntry;
use wowsunpack::export::camos::SchemeColors;
use wowsunpack::export::hulls;
use wowsunpack::export::hulls::HullComponent;
use wowsunpack::export::hulls::HullUpgrade;
use wowsunpack::export::paths;
use wowsunpack::export::ships;
use wowsunpack::export::ships::FindShipError;
use wowsunpack::export::ships::ParamInfo;
use wowsunpack::export::ships::VehicleInfo;
use wowsunpack::export::timestamp;
use wowsunpack::game_params::keys;
use wowsunpack::game_params::keys::ComponentType;
use wowsunpack::game_params::types::MountSpecies;
use wowsunpack::game_params::types::Species;
use wowsunpack::models::assets_bin::PathEntry;
use wowsunpack::models::assets_bin::PrototypeDatabase;
use wowsunpack::order;
use wowsunpack::slots::NamedSlot;

fn database(paths: &[(&str, &str)]) -> PrototypeDatabase {
    PrototypeDatabase {
        paths: paths
            .iter()
            .enumerate()
            .map(|(i, (name, full))| PathEntry {
                name: name.to_string(),
                full_path: full.to_string(),
                self_id: i as u64 + 1,
            })
            .collect(),
        strings: vec![],
        resources: vec![],
        materials: vec![],
        model_visuals: vec![],
        visual_count: 0,
    }
}

fn ship(index: &str, shown: Option<&str>, model: Option<&str>) -> ParamInfo {
    ParamInfo {
        index: index.to_string(),
        name: format!("{index}_Name"),
        nation: "Japan".to_string(),
        species: Some(Species::Battleship),
        vehicle: Some(VehicleInfo {
            level: 10,
            model_path: model.map(str::to_string),
            permoflages: vec![],
            armor: None,
            hit_locations: None,
        }),
        exterior: None,
        display_name: shown.map(str::to_string),
    }
}

const YAMATO: &str = "content/gameplay/japan/ship/battleship/JSB039_Yamato_1945/JSB039_Yamato.model";
const GRAF: &str = "content/gameplay/germany/ship/battleship/GSB001_Grosser/GSB001.model";
const MUSASHI: &str = "content/gameplay/japan/ship/battleship/JSB040_Musashi/JSB040.model";

fn fleet() -> Vec<ParamInfo> {
    vec![
        ship("PJSB018", Some("Yamato"), Some(YAMATO)),
        ship("PJSB509", Some("Musashi"), Some(MUSASHI)),
        ship("PGSB110", Some("Großer Kurfürst"), Some(GRAF)),
        ship("PJSB999", Some("Yamato Hull"), None),
        ship("PJSB888", None, Some(YAMATO)),
    ]
}

#[test]
fn ships_are_found_by_model_directory() {
    let db = database(&[(
        "JSB039_Yamato_1945_Bow.visual",
        "/content/gameplay/japan/JSB039_Yamato_1945/JSB039_Yamato_1945_Bow.visual",
    )]);
    let found = ships::find_ship(&db, &fleet(), "JSB039_Yamato_1945").unwrap();
    assert_eq!(found.model_dir, "JSB039_Yamato_1945");
    assert_eq!(found.display_name.as_deref(), Some("Yamato"));
    assert_eq!(found.param_index, "PJSB018");
    assert_eq!(found.nation, "Japan");
    assert_eq!(found.species, "Battleship");
    assert_eq!(found.tier, 10);
    assert_eq!(found.stem(), "Yamato");
    let unknown = ships::find_ship(&db, &vec![], "JSB039_Yamato_1945").unwrap();
    assert_eq!(unknown.display_name, None);
    assert_eq!((unknown.param_index.as_str(), unknown.tier), ("", 0));
    assert_eq!(unknown.stem(), "JSB039_Yamato_1945");
}

#[test]
fn ships_are_found_by_index_and_name() {
    let db = database(&[]);
    let found = ships::find_ship(&db, &fleet(), "PJSB888").unwrap();
    assert_eq!(found.model_dir, "JSB039_Yamato_1945");
    assert_eq!(found.display_name, None);
    // Accents and case do not count.
    let found = ships::find_ship(&db, &fleet(), "grosser KURFURST").unwrap();
    assert_eq!(found.display_name.as_deref(), Some("Großer Kurfürst"));
    assert_eq!(found.model_dir, "GSB001_Grosser");
    // A ship without a model is no match, so one is left.
    let found = ships::find_ship(&db, &fleet(), "yamato").unwrap();
    assert_eq!(found.param_index, "PJSB018");
    assert_eq!(ships::normalise("Großer"), "grosser");
    assert_eq!(ships::model_dir_name(YAMATO), "JSB039_Yamato_1945");
    assert_eq!(ships::model_dir_name("alone"), "alone");
}

#[test]
fn failed_searches_say_why() {
    let db = database(&[]);
    let e = ships::find_ship(&db, &fleet(), "Bismarck").unwrap_err();
    assert!(matches!(&e, FindShipError::NotFound { name } if name == "Bismarck"));
    assert_eq!(
        e.message(),
        "No ship found matching 'Bismarck'. Try using the model directory name (e.g. 'JSB039_Yamato_1945')."
    );
    let e = ships::find_ship(&db, &fleet(), "a").unwrap_err();
    assert!(matches!(&e, FindShipError::Ambiguous { matches, .. } if matches.len() == 2));
    assert_eq!(
        e.message(),
        "Multiple ships match 'a':\n  Yamato (PJSB018) -> JSB039_Yamato_1945\n  \
         Musashi (PJSB509) -> JSB040_Musashi\nPlease refine your search or use the model \
         directory name directly."
    );
}

#[test]
fn matches_of_one_directory_are_one_ship() {
    let db = database(&[]);
    let twins = vec![
        ship("PA1", Some("Twin One"), Some(YAMATO)),
        ship("PA2", Some("Twin Two"), Some(YAMATO)),
    ];
    let found = ships::find_ship(&db, &twins, "twin").unwrap();
    assert_eq!(found.display_name.as_deref(), Some("Twin One"));
    assert_eq!(ships::find_ship_index(&twins, "JSB039_Yamato_1945").as_deref(), Some("PA1"));
    assert_eq!(ships::find_ship_index(&twins, "JSB040").as_deref(), None);
    let of_model = ships::ship_of_model(&twins, YAMATO);
    assert_eq!(of_model.model_dir, "JSB039_Yamato_1945");
    assert_eq!(of_model.param_index, "PA1");
}

#[test]
fn identity_of_a_parameter() {
    let p = ship("PJSB018", None, None);
    assert_eq!(
        ships::ship_identity_from_param(Some(&p)),
        ("Japan".to_string(), "Battleship".to_string(), 10)
    );
    assert_eq!(ships::ship_identity_from_param(None), (String::new(), String::new(), 0));
    let odd = ParamInfo { species: Some(Species::Other), vehicle: None, ..p };
    assert_eq!(ships::ship_identity_from_param(Some(&odd)).1, "");
    assert_eq!(ships::ship_identity_from_param(Some(&odd)).2, 0);
    assert_eq!(Species::Submarine.name(), "Submarine");
    assert_eq!(MountSpecies::DCharge.name(), "DCharge");
}

#[test]
fn files_of_a_model_are_listed_by_name() {
    let dir = "/content/JSB039_Yamato_1945/";
    let full = |n: &str| format!("{dir}{n}");
    let names = [
        "JSB039_Yamato_1945_Stern.visual",
        "JSB039_Yamato_1945_Bow.visual",
        "JSB039_Yamato_1945_Bow.skel_ext",
        "JSB039_Yamato_1945.skel_ext",
    ];
    let fulls: Vec<String> = names.iter().map(|n| full(n)).collect();
    let mut list: Vec<(&str, &str)> =
        names.iter().copied().zip(fulls.iter().map(String::as_str)).collect();
    list.push(("Other.visual", "/content/Other/Other.visual"));
    // A deeper directory counts for visuals, but not for decorations.
    let deeper = full("sub/Deep.visual");
    list.push(("Deep.visual", &deeper));
    let hidden = full("sub/Deep.skel_ext");
    list.push(("Deep.skel_ext", &hidden));
    let db = database(&list);
    let found = paths::find_visual_paths(&db, "JSB039_Yamato_1945");
    let seen: Vec<&str> = found.iter().map(|p| p.name.as_str()).collect();
    assert_eq!(seen, ["Deep", "JSB039_Yamato_1945_Bow", "JSB039_Yamato_1945_Stern"]);
    assert_eq!(found[1].path, fulls[1]);
    let segments: Vec<String> = paths::find_skel_ext_paths(&db, "JSB039_Yamato_1945")
        .into_iter()
        .map(|p| p.name)
        .collect();
    assert_eq!(segments, ["Bow", "JSB039_Yamato_1945"]);
    assert_eq!(paths::splash_path("a/b.geometry").as_deref(), Some("a/b.splash"));
    assert_eq!(paths::splash_path("a/b.model"), None);
    assert_eq!(paths::turret_visual_name("a/b/AGM034.model"), "AGM034.visual");
    assert_eq!(paths::model_short_name("a/b/AGM034.model"), "AGM034");
    assert_eq!(paths::model_short_name("a/b/AGM034"), "a/b/AGM034");
}

fn hull(name: &str, components: &[(ComponentType, Option<&str>, Option<usize>)]) -> HullUpgrade {
    HullUpgrade {
        name: name.to_string(),
        components: components
            .iter()
            .map(|(kind, name, mount_count)| HullComponent {
                kind: *kind,
                name: name.map(str::to_string),
                mount_count: *mount_count,
            })
            .collect(),
    }
}

#[test]
fn hull_upgrades_are_listed_in_order() {
    let upgrades = vec![
        hull("PJUH902_Yamato_B", &[(ComponentType::Hull, Some("B_Hull"), None)]),
        hull(
            "PJUH901_Yamato_A",
            &[
                (ComponentType::Hull, Some("A_Hull"), None),
                (ComponentType::Artillery, Some("A_Artillery"), Some(3)),
            ],
        ),
    ];
    let infos = hulls::list_hull_upgrades(&upgrades);
    assert_eq!(infos[0].name, "PJUH901_Yamato_A");
    assert_eq!(infos[0].components.len(), 13);
    assert_eq!(infos[0].components[1].label, "Main Battery");
    assert_eq!(infos[0].components[1].name, "A_Artillery");
    assert_eq!(infos[0].components[1].mounts, 3);
    assert_eq!(infos[1].components[1].name, "(none)");
    assert_eq!(infos[1].components[1].mounts, 0);
    // By full name, by hull letter, and the default; a part of a name is not enough.
    assert_eq!(hulls::select_hull(&upgrades, Some("PJUH902_Yamato_B")), Some(0));
    assert_eq!(hulls::select_hull(&upgrades, Some("Yamato")), None);
    assert_eq!(hulls::select_hull(&upgrades, Some("B")), Some(0));
    assert_eq!(hulls::select_hull(&upgrades, None), Some(1));
    assert_eq!(hulls::select_hull(&upgrades, Some("Z")), None);
    assert_eq!(hulls::select_hull(&vec![], None), None);
}

#[test]
fn hull_is_selected_by_its_letter() {
    let upgrades = vec![
        hull("One", &[(ComponentType::Hull, Some("X_Hull"), None)]),
        hull("Two", &[(ComponentType::Hull, Some("Y_Hull"), None)]),
    ];
    assert_eq!(hulls::select_hull(&upgrades, Some("Y")), Some(1));
    assert_eq!(hulls::select_hull(&upgrades, Some("y")), None);
    // Letters of the upgrade names make no difference.
    let baltimore = vec![
        hull("PAUH1_Balt_A", &[(ComponentType::Hull, Some("A_Hull"), None)]),
        hull("PAUH2_Balt_B", &[(ComponentType::Hull, Some("B_Hull"), None)]),
    ];
    assert_eq!(hulls::select_hull(&baltimore, Some("B")), Some(1));
    assert_eq!(hulls::select_hull(&baltimore, Some("A")), Some(0));
    assert_eq!(hulls::select_hull(&baltimore, Some("PAUH2_Balt_B")), Some(1));
    // A full name goes before a hull.
    let odd = vec![
        hull("A", &[(ComponentType::Hull, Some("B_Hull"), None)]),
        hull("B", &[(ComponentType::Hull, Some("A_Hull"), None)]),
    ];
    assert_eq!(hulls::select_hull(&odd, Some("B")), Some(1));
}

fn entry(name: &str, textures: &[&str], tiled: bool, scheme: Option<&str>) -> CamoEntry {
    CamoEntry {
        camo_name: name.to_string(),
        textures: textures.iter().map(|s| s.to_string()).collect(),
        tiled,
        color_scheme: scheme.map(str::to_string),
    }
}

fn exterior(name: &str, index: &str, camo: Option<&str>, shown: Option<&str>) -> ParamInfo {
    ParamInfo {
        index: index.to_string(),
        name: name.to_string(),
        nation: String::new(),
        species: None,
        vehicle: None,
        exterior: Some(camo.map(str::to_string)),
        display_name: shown.map(str::to_string),
    }
}

fn catalog() -> CamoCatalog {
    CamoCatalog {
        entries: vec![
            entry("mat_Steel", &["a.dds", "b.dds", "a.dds"], false, Some("red")),
            entry("camo_Tile", &["t.dds"], true, Some("red")),
            entry("camo_Empty", &[], true, None),
        ],
        color_schemes: vec![NamedSlot {
            name: "red".to_string(),
            value: SchemeColors { colors: [[1, 2, 3, 4]; 4] },
        }],
        translations: vec![NamedSlot {
            name: "IDS_PCEM001_STEEL".to_string(),
            value: "Steel".to_string(),
        }],
    }
}

#[test]
fn own_camouflages_are_found() {
    let mut yamato = ship("PJSB018", Some("Yamato"), Some(YAMATO));
    let list = ["PCEM001_Steel", "PCEM002", "PCEM003", "PCEM004", "gone"];
    yamato.vehicle.as_mut().unwrap().permoflages = list.iter().map(|s| s.to_string()).collect();
    let params = vec![
        yamato,
        exterior("PCEM001_Steel", "PCEM001", Some("mat_Steel"), None),
        exterior("PCEM002_Tile", "PCEM002", Some("camo_Tile"), Some("Tile")),
        exterior("PCEM003_Again", "PCEM003", Some("mat_Steel"), None),
        exterior("PCEM004_Empty", "PCEM004", Some("camo_Empty"), None),
    ];
    let found = camos::discover_mat_camo_schemes(&params, "JSB039_Yamato_1945", &catalog());
    assert_eq!(found.len(), 2);
    assert_eq!(found[0].display_name, "Steel");
    assert_eq!(found[0].texture_paths, ["a.dds", "b.dds"]);
    assert!(!found[0].tiled);
    assert!(found[0].color_scheme_colors.is_none());
    assert_eq!(found[1].display_name, "Tile");
    assert_eq!(found[1].color_scheme_colors.unwrap().colors[2], [1, 2, 3, 4]);
    assert_eq!(found[1].entry, 1);
    assert_eq!(
        camos::list_texture_schemes(vec!["Base".to_string()], &found, &found),
        [
            "Base",
            "Steel (mat_camo)",
            "Tile (tiled)",
            "Steel (universal/mat_camo)",
            "Tile (universal/tiled)"
        ]
    );
    assert!(camos::discover_mat_camo_schemes(&params, "nobody", &catalog()).is_empty());
}

#[test]
fn universal_camouflages_are_found() {
    let params = vec![
        exterior("PCEC001_Tile", "PCEC001", Some("camo_Tile"), Some("ignored")),
        exterior("PCEM002_Steel", "PCEM002", Some("mat_Steel"), None),
        exterior("PCEC003_None", "PCEC003", None, None),
    ];
    let found = camos::discover_universal_camo_schemes(&params, &catalog());
    assert_eq!(found.len(), 1);
    assert_eq!(found[0].display_name, "camo_Tile");
    let list: Vec<String> = ["b", "a", "b", "c", "a"].iter().map(|s| s.to_string()).collect();
    assert_eq!(camos::keep_distinct(&list), ["b", "a", "c"]);
}

#[test]
fn timestamps_are_written() {
    assert_eq!(timestamp::format_rfc3339_utc(0), "1970-01-01T00:00:00Z");
    assert_eq!(timestamp::format_rfc3339_utc(951_782_400), "2000-02-29T00:00:00Z");
    assert_eq!(timestamp::format_rfc3339_utc(1_700_000_000), "2023-11-14T22:13:20Z");
    assert_eq!(timestamp::format_rfc3339_utc(4_107_542_399), "2100-02-28T23:59:59Z");
    assert_eq!(timestamp::format_rfc3339_utc(4_107_542_400), "2100-03-01T00:00:00Z");
    assert_eq!(timestamp::civil_date(59), (1970, 3, 1));
    assert_eq!(timestamp::civil_date(364), (1970, 12, 31));
}

#[test]
fn build_metadata_is_resolved() {
    let some = |s: &str| Some(s.to_string());
    assert_eq!(build_info::resolve_meta(&some(" v1 \n"), &some("v2"), "none"), "v1");
    assert_eq!(build_info::resolve_meta(&some("  "), &some("v2\n"), "none"), "v2");
    assert_eq!(build_info::resolve_meta(&None, &some("\t"), "none"), "none");
    assert_eq!(build_info::resolve_dirty(&some("yes"), &None), "yes");
    assert_eq!(build_info::resolve_dirty(&None, &Some(b" \n".to_vec())), "false");
    assert_eq!(build_info::resolve_dirty(&None, &Some(b" M a.rs\n".to_vec())), "true");
    assert_eq!(build_info::resolve_dirty(&None, &None), "unknown");
    assert_eq!(
        build_info::merge_builds(&vec![7, 3, 3], &vec![5, 7], &vec![9, 1, 5]),
        [1, 3, 3, 5, 7, 9]
    );
    let declared = build_info::declare_flags();
    assert_eq!(declared.len(), 4);
    assert_eq!(declared[0], "cargo:rustc-check-cfg=cfg(has_game_data)");
    assert_eq!(declared[2], "cargo:rustc-check-cfg=cfg(has_build_9531281)");
    assert_eq!(
        build_info::set_flags(&vec![7, 6965290]),
        [
            "cargo:rustc-check-cfg=cfg(has_build_7)",
            "cargo:rustc-cfg=has_build_7",
            "cargo:rustc-cfg=has_build_6965290",
            "cargo:rustc-cfg=has_game_data",
        ]
    );
    assert!(build_info::set_flags(&vec![]).is_empty());
}

#[test]
fn component_keys_match_their_types() {
    for (i, c) in ComponentType::ALL.iter().enumerate() {
        assert_eq!(keys::ALL_COMPONENT_TYPES[i], c.key());
        assert_eq!(keys::MODEL_COMPONENT_TYPES[i], c.key());
        for d in &ComponentType::ALL[..i] {
            assert_ne!(c.key(), d.key());
        }
    }
    assert_eq!(ComponentType::AirDefense.label(), "AA");
    assert_eq!(keys::HP_PREFIX, "HP_");
}

#[test]
fn equal_texts_keep_their_order() {
    let texts: Vec<String> = ["b", "a", "", "b", "a\u{e9}", "a"].map(str::to_string).to_vec();
    assert_eq!(order::sort_stably(&texts), [2, 1, 5, 4, 0, 3]);
}
