use wowsunpack::export::texture_names::base_albedo_candidates;
use wowsunpack::export::texture_names::camo_texture_candidates;
use wowsunpack::export::texture_names::discover_texture_schemes;
use wowsunpack::export::texture_names::strip_channel_suffix;
use wowsunpack::export::texture_names::strip_year_token;
use wowsunpack::export::texture_names::texture_base_names;
use wowsunpack::export::texture_names::texture_path_candidates;
use wowsunpack::export::texture_names::truncate_at_year_token;

#[test]
fn strip_year_token_middle() {
    assert_eq!(
        strip_year_token("ASC017_Baltimore_1944_Bow").as_deref(),
        Some("ASC017_Baltimore_Bow"),
    );
    assert_eq!(
        strip_year_token("JSB039_Yamato_1945_Hull").as_deref(),
        Some("JSB039_Yamato_Hull"),
    );
}

#[test]
fn strip_year_token_trailing() {
    assert_eq!(
        strip_year_token("ASB017_Montana_1945").as_deref(),
        Some("ASB017_Montana"),
    );
}

#[test]
fn strip_year_token_no_year() {
    assert_eq!(strip_year_token("ASB017_Montana_Deckhouse"), None);
    assert_eq!(strip_year_token("AGM034_16in50_Mk7_skinned"), None);
    assert_eq!(strip_year_token("AGS010_5in38_Mk32_Mod12"), None);
    assert_eq!(strip_year_token("AGM019_8in55_CA68"), None);
}

#[test]
fn strip_year_token_5digit_not_year() {
    assert_eq!(strip_year_token("AB12345_Test"), None);
}

#[test]
fn truncate_at_year_token_basic() {
    assert_eq!(
        truncate_at_year_token("ASC017_Baltimore_1944_Bow").as_deref(),
        Some("ASC017_Baltimore"),
    );
    assert_eq!(
        truncate_at_year_token("JSB039_Yamato_1945_Hull").as_deref(),
        Some("JSB039_Yamato"),
    );
    assert_eq!(
        truncate_at_year_token("JSB039_Yamato_1945").as_deref(),
        Some("JSB039_Yamato"),
    );
}

#[test]
fn truncate_at_year_token_no_year() {
    assert_eq!(truncate_at_year_token("ASB017_Montana_Deckhouse"), None);
}

#[test]
fn texture_base_names_baltimore_camo_pattern() {
    let names = texture_base_names("ASC017_Baltimore_1944_Bow");
    assert!(
        names.contains(&"ASC017_Baltimore".to_string()),
        "expected ASC017_Baltimore in candidate list, got {names:?}",
    );
    assert!(
        names.contains(&"ASC017_Baltimore_Bow".to_string()),
        "expected ASC017_Baltimore_Bow in candidate list, got {names:?}",
    );
    assert_eq!(names.first().map(String::as_str), Some("ASC017_Baltimore_1944_Bow"));
}

#[test]
fn texture_base_names_montana_passthrough() {
    let names = texture_base_names("ASB017_Montana_Deckhouse");
    assert_eq!(names, vec!["ASB017_Montana_Deckhouse".to_string()]);
}

#[test]
fn texture_base_names_yamato_full() {
    let names = texture_base_names("JSB039_Yamato_1945_Hull");
    assert!(names.contains(&"JSB039_Yamato_1945_Hull".to_string()));
    assert!(names.contains(&"JSB039_Yamato_Hull".to_string()));
    assert!(names.contains(&"JSB039_Yamato".to_string()));
}

#[test]
fn texture_base_names_skinned_turret() {
    let names = texture_base_names("AGM034_16in50_Mk7_skinned");
    assert_eq!(names.first().map(String::as_str), Some("AGM034_16in50_Mk7_skinned"));
    assert!(names.contains(&"AGM034_16in50_Mk7".to_string()));
}

#[test]
fn texture_base_names_no_dup_when_year_strip_matches_original() {
    let names = texture_base_names("ASC017_Baltimore");
    assert_eq!(names, vec!["ASC017_Baltimore".to_string()]);
}

#[test]
fn camouflage_files_are_tried_by_base_name() {
    let c = camo_texture_candidates("ASB017_Montana_Deckhouse", "camo_01");
    assert!(c.iter().all(|t| t.base_name == "ASB017_Montana_Deckhouse"));
    let paths: Vec<&str> = c.iter().map(|t| t.path.as_str()).collect();
    assert_eq!(
        paths,
        [
            "content/gameplay/common/camouflage/textures/ASB017_Montana_Deckhouse_camo_01_a.dd0",
            "content/gameplay/common/camouflage/textures/ASB017_Montana_Deckhouse_camo_01_a.dds",
            "content/gameplay/common/camouflage/textures/ASB017_Montana_Deckhouse_camo_01.dd0",
            "content/gameplay/common/camouflage/textures/ASB017_Montana_Deckhouse_camo_01.dds",
        ]
    );
}

#[test]
fn albedo_files_are_tried_next_to_the_material() {
    let c = base_albedo_candidates("content/ship/model/Hull.mfm");
    assert_eq!(c[0], "content/ship/textures/Hull_a.dd0");
    assert_eq!(c[1], "content/ship/textures/Hull_a.dds");
    assert_eq!(c[2], "content/ship/model/Hull_a.dd0");
    assert!(c.contains(&"content/ship/model/TILED/Hull_od.dds".to_string()));
    assert!(base_albedo_candidates("Hull.mfm").is_empty());
    assert!(base_albedo_candidates("a/Hull.visual").is_empty());
}

#[test]
fn texture_is_tried_in_high_resolution_first() {
    assert_eq!(texture_path_candidates("a/b.dds"), ["a/b.dd0", "a/b.dds"]);
    assert_eq!(texture_path_candidates("a/b.png"), ["a/b.png"]);
}

#[test]
fn schemes_lose_their_channel() {
    assert_eq!(strip_channel_suffix("camo_01_a"), "camo_01");
    assert_eq!(strip_channel_suffix("camo_01_mg"), "camo_01");
    assert_eq!(strip_channel_suffix("camo_01"), "camo_01");
    assert_eq!(strip_channel_suffix("_a"), "_a");
}

#[test]
fn schemes_are_found_sorted_and_once() {
    let files: Vec<String> = ["Hull_camo_02_a.dds", "Hull_camo_01.dds", "Hull_camo_02_mg.dds", "Mast_x.dds"]
        .iter()
        .map(|s| s.to_string())
        .collect();
    let stems = vec!["Hull".to_string()];
    assert_eq!(discover_texture_schemes(&files, &stems), ["camo_01", "camo_02"]);
}
