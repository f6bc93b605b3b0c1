use wowsunpack::capabilities::build;
use wowsunpack::capabilities::parse_git_dirty;
use wowsunpack::capabilities::BuildInfo;
use wowsunpack::capabilities::Capabilities;

/// A build of which nothing was recorded.
fn recorded() -> BuildInfo {
    BuildInfo {
        package_version: "0.1.0",
        release_tag: "unknown",
        git_commit: "unknown",
        git_dirty: "unknown",
        target: "unknown",
        build_profile: "unknown",
    }
}

#[test]
fn schema_id_is_pinned() {
    let caps = build(recorded());
    assert_eq!(caps.schema, "wowsunpack.capabilities/v1");
    assert_eq!(caps.tool.name, "wowsunpack");
    assert_eq!(caps.tool.release_channel, "ship-pipeline");
    assert_eq!(caps.tool.repository, "https://github.com/sqz269/wows-toolkit");
}

#[test]
fn contract_count_matches_spec() {
    let caps = build(recorded());
    assert_eq!(caps.contracts.len(), 11);
    assert_eq!(caps.features.len(), 13);
    assert_eq!(caps.schemas.len(), 6);
}

#[test]
fn schema_versions_are_pinned() {
    let caps = build(recorded());
    assert_eq!(caps.contracts.get("toolkit_capabilities").copied(), Some(1));
    assert_eq!(caps.contracts.get("skel_ext_candidates_json").copied(), Some(3));
    assert_eq!(
        caps.schemas.get("skel_ext_candidates_json").copied(),
        Some("wowsunpack.skel_ext_candidates/v3"),
    );
}

#[test]
fn parse_git_dirty_only_true_is_true() {
    assert!(parse_git_dirty("true"));
    assert!(parse_git_dirty("TRUE"));
    assert!(!parse_git_dirty("false"));
    assert!(!parse_git_dirty("unknown"));
    assert!(!parse_git_dirty(""));
}

fn to_json(caps: &Capabilities) -> String {
    let mut root = serde_json::Map::new();
    root.insert("schema".to_string(), caps.schema.into());
    let mut tool = serde_json::Map::new();
    tool.insert("name".to_string(), caps.tool.name.into());
    tool.insert("git_dirty".to_string(), caps.tool.git_dirty.into());
    root.insert("tool".to_string(), tool.into());
    let contracts: serde_json::Map<String, serde_json::Value> = caps
        .contracts
        .entries
        .iter()
        .map(|(name, version)| (name.to_string(), (*version).into()))
        .collect();
    root.insert("contracts".to_string(), contracts.into());
    root.insert("features".to_string(), caps.features.clone().into());
    let schemas: serde_json::Map<String, serde_json::Value> = caps
        .schemas
        .entries
        .iter()
        .map(|(name, schema)| (name.to_string(), (*schema).into()))
        .collect();
    root.insert("schemas".to_string(), schemas.into());
    serde_json::to_string_pretty(&serde_json::Value::Object(root)).unwrap()
}

#[test]
fn serialization_is_deterministic() {
    let a = to_json(&build(recorded()));
    let b = to_json(&build(recorded()));
    assert_eq!(a, b);
}

#[test]
fn tables_stand_in_order_of_names() {
    let caps = build(recorded());
    let names: Vec<&str> = caps.contracts.entries.iter().map(|(n, _)| *n).collect();
    let mut sorted = names.clone();
    sorted.sort();
    assert_eq!(names, sorted);
    assert_eq!(names[0], "ammo_json");
    assert_eq!(caps.schemas.entries[0], ("ammo_json", "wowsunpack.ammo/v1"));
    assert_eq!(caps.contracts.get("nothing"), None);
}

#[test]
fn description_carries_what_was_recorded() {
    let caps = build(BuildInfo {
        package_version: "0.2.0",
        release_tag: "v7",
        git_commit: "abc",
        git_dirty: "True",
        target: "x86_64",
        build_profile: "release",
    });
    assert_eq!(caps.tool.package_version, "0.2.0");
    assert_eq!(caps.tool.release_tag, "v7");
    assert_eq!(caps.tool.git_commit, "abc");
    assert!(caps.tool.git_dirty);
    assert_eq!(caps.tool.target, "x86_64");
    assert_eq!(caps.tool.build_profile, "release");
    assert_eq!(caps.features[0], "export_ship.all_render_sets");
}
