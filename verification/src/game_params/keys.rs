//! Keys of the game parameter dictionaries.
use vstd::prelude::*;

use crate::export::ship::AccessoryMode;

verus! {

// Keys of a ship.
pub const SHIP_UPGRADE_INFO: &'static str = "ShipUpgradeInfo";
pub const SHIP_ABILITIES: &'static str = "ShipAbilities";
pub const A_HULL: &'static str = "A_Hull";

// Keys of an upgrade.
pub const UC_TYPE: &'static str = "ucType";
pub const COMPONENTS: &'static str = "components";

// Values of `ucType`.
pub const UC_TYPE_HULL: &'static str = "_Hull";
pub const UC_TYPE_ARTILLERY: &'static str = "_Artillery";
pub const UC_TYPE_TORPEDOES: &'static str = "_Torpedoes";

// Component types that carry hardpoints.
pub const COMP_HULL: &'static str = "hull";
pub const COMP_ARTILLERY: &'static str = "artillery";
pub const COMP_ATBA: &'static str = "atba";
pub const COMP_AIR_DEFENSE: &'static str = "airDefense";
pub const COMP_AIR_ARMAMENT: &'static str = "airArmament";
pub const COMP_DIRECTORS: &'static str = "directors";
pub const COMP_FINDERS: &'static str = "finders";
pub const COMP_RADARS: &'static str = "radars";
pub const COMP_TORPEDOES: &'static str = "torpedoes";
pub const COMP_DEPTH_CHARGES: &'static str = "depthCharges";
pub const COMP_MISSILES: &'static str = "missiles";
pub const COMP_PHASER_LASERS: &'static str = "phaserLasers";
pub const COMP_ABILITIES: &'static str = "abilities";

/// A component type. The order of the variants groups the mounts of a ship.
#[derive(Debug, Clone, Copy, PartialEq, Eq, Structural, Hash, PartialOrd, Ord)]
pub enum ComponentType {
    Hull,
    Artillery,
    Atba,
    AirDefense,
    /// Catapults.
    AirArmament,
    Directors,
    Finders,
    Radars,
    Torpedoes,
    /// Depth charge throwers and racks.
    DepthCharges,
    /// Missile launchers.
    Missiles,
    PhaserLasers,
    /// Launchers of special abilities.
    Abilities,
}

/// The key of a component type in the dictionaries.
pub open spec fn key_of(c: ComponentType) -> Seq<char> {
    match c {
        ComponentType::Hull => "hull"@,
        ComponentType::Artillery => "artillery"@,
        ComponentType::Atba => "atba"@,
        ComponentType::AirDefense => "airDefense"@,
        ComponentType::AirArmament => "airArmament"@,
        ComponentType::Directors => "directors"@,
        ComponentType::Finders => "finders"@,
        ComponentType::Radars => "radars"@,
        ComponentType::Torpedoes => "torpedoes"@,
        ComponentType::DepthCharges => "depthCharges"@,
        ComponentType::Missiles => "missiles"@,
        ComponentType::PhaserLasers => "phaserLasers"@,
        ComponentType::Abilities => "abilities"@,
    }
}

/// The name of a component type for a reader.
pub open spec fn label_of(c: ComponentType) -> Seq<char> {
    match c {
        ComponentType::Hull => "Hull"@,
        ComponentType::Artillery => "Main Battery"@,
        ComponentType::Atba => "Secondaries"@,
        ComponentType::AirDefense => "AA"@,
        ComponentType::AirArmament => "Air Armament"@,
        ComponentType::Directors => "Directors"@,
        ComponentType::Finders => "Finders"@,
        ComponentType::Radars => "Radars"@,
        ComponentType::Torpedoes => "Torpedoes"@,
        ComponentType::DepthCharges => "Depth Charges"@,
        ComponentType::Missiles => "Missiles"@,
        ComponentType::PhaserLasers => "Phaser Lasers"@,
        ComponentType::Abilities => "Abilities"@,
    }
}

impl ComponentType {
    /// All component types, in order.
    pub const ALL: [ComponentType; 13] = [
        ComponentType::Hull,
        ComponentType::Artillery,
        ComponentType::Atba,
        ComponentType::AirDefense,
        ComponentType::AirArmament,
        ComponentType::Directors,
        ComponentType::Finders,
        ComponentType::Radars,
        ComponentType::Torpedoes,
        ComponentType::DepthCharges,
        ComponentType::Missiles,
        ComponentType::PhaserLasers,
        ComponentType::Abilities,
    ];

    /// The key of a component type in the dictionaries.
    pub fn key(&self) -> (r: &'static str)
        ensures
            r@ == key_of(*self),
    {
        match self {
            ComponentType::Hull => "hull",
            ComponentType::Artillery => "artillery",
            ComponentType::Atba => "atba",
            ComponentType::AirDefense => "airDefense",
            ComponentType::AirArmament => "airArmament",
            ComponentType::Directors => "directors",
            ComponentType::Finders => "finders",
            ComponentType::Radars => "radars",
            ComponentType::Torpedoes => "torpedoes",
            ComponentType::DepthCharges => "depthCharges",
            ComponentType::Missiles => "missiles",
            ComponentType::PhaserLasers => "phaserLasers",
            ComponentType::Abilities => "abilities",
        }
    }

    /// The name of a component type for a reader.
    pub fn label(&self) -> (r: &'static str)
        ensures
            r@ == label_of(*self),
    {
        match self {
            ComponentType::Hull => "Hull",
            ComponentType::Artillery => "Main Battery",
            ComponentType::Atba => "Secondaries",
            ComponentType::AirDefense => "AA",
            ComponentType::AirArmament => "Air Armament",
            ComponentType::Directors => "Directors",
            ComponentType::Finders => "Finders",
            ComponentType::Radars => "Radars",
            ComponentType::Torpedoes => "Torpedoes",
            ComponentType::DepthCharges => "Depth Charges",
            ComponentType::Missiles => "Missiles",
            ComponentType::PhaserLasers => "Phaser Lasers",
            ComponentType::Abilities => "Abilities",
        }
    }
}

/// The keys of all component types.
pub const ALL_COMPONENT_TYPES: [&'static str; 13] = [
    COMP_HULL,
    COMP_ARTILLERY,
    COMP_ATBA,
    COMP_AIR_DEFENSE,
    COMP_AIR_ARMAMENT,
    COMP_DIRECTORS,
    COMP_FINDERS,
    COMP_RADARS,
    COMP_TORPEDOES,
    COMP_DEPTH_CHARGES,
    COMP_MISSILES,
    COMP_PHASER_LASERS,
    COMP_ABILITIES,
];

/// The keys of the component types with models on hull hardpoints.
pub const MODEL_COMPONENT_TYPES: [&'static str; 13] = [
    COMP_HULL,
    COMP_ARTILLERY,
    COMP_ATBA,
    COMP_AIR_DEFENSE,
    COMP_AIR_ARMAMENT,
    COMP_DIRECTORS,
    COMP_FINDERS,
    COMP_RADARS,
    COMP_TORPEDOES,
    COMP_DEPTH_CHARGES,
    COMP_MISSILES,
    COMP_PHASER_LASERS,
    COMP_ABILITIES,
];

/// The lists of keys are the keys of the component types, in order, and every component
/// type is listed.
pub proof fn key_lists_match_component_types(c: ComponentType)
    ensures
        forall|i: int|
            0 <= i < 13 ==> key_of(#[trigger] ComponentType::ALL@[i]) == ALL_COMPONENT_TYPES@[i]@
                && MODEL_COMPONENT_TYPES@[i]@ == ALL_COMPONENT_TYPES@[i]@,
        ComponentType::ALL@.contains(c),
{
    let all = ComponentType::ALL@;
    assert(all[0] == ComponentType::Hull);
    assert(all[1] == ComponentType::Artillery);
    assert(all[2] == ComponentType::Atba);
    assert(all[3] == ComponentType::AirDefense);
    assert(all[4] == ComponentType::AirArmament);
    assert(all[5] == ComponentType::Directors);
    assert(all[6] == ComponentType::Finders);
    assert(all[7] == ComponentType::Radars);
    assert(all[8] == ComponentType::Torpedoes);
    assert(all[9] == ComponentType::DepthCharges);
    assert(all[10] == ComponentType::Missiles);
    assert(all[11] == ComponentType::PhaserLasers);
    assert(all[12] == ComponentType::Abilities);
}

/// Different component types have different keys.
pub proof fn keys_are_distinct(a: ComponentType, b: ComponentType)
    requires
        key_of(a) == key_of(b),
    ensures
        a == b,
{
    reveal_strlit("hull");
    reveal_strlit("artillery");
    reveal_strlit("atba");
    reveal_strlit("airDefense");
    reveal_strlit("airArmament");
    reveal_strlit("directors");
    reveal_strlit("finders");
    reveal_strlit("radars");
    reveal_strlit("torpedoes");
    reveal_strlit("depthCharges");
    reveal_strlit("missiles");
    reveal_strlit("phaserLasers");
    reveal_strlit("abilities");
    assert("hull"@.len() == 4 && "hull"@[1] == 'u');
    assert("artillery"@.len() == 9 && "artillery"@[1] == 'r');
    assert("atba"@.len() == 4 && "atba"@[1] == 't');
    assert("airDefense"@.len() == 10 && "airDefense"@[1] == 'i');
    assert("airArmament"@.len() == 11 && "airArmament"@[1] == 'i');
    assert("directors"@.len() == 9 && "directors"@[1] == 'i');
    assert("finders"@.len() == 7 && "finders"@[1] == 'i');
    assert("radars"@.len() == 6 && "radars"@[1] == 'a');
    assert("torpedoes"@.len() == 9 && "torpedoes"@[1] == 'o');
    assert("depthCharges"@.len() == 12 && "depthCharges"@[1] == 'e');
    assert("missiles"@.len() == 8 && "missiles"@[1] == 'i');
    assert("phaserLasers"@.len() == 12 && "phaserLasers"@[1] == 'h');
    assert("abilities"@.len() == 9 && "abilities"@[1] == 'b');
    assert(key_of(a).len() == key_of(b).len() && key_of(a)[1] == key_of(b)[1]);
}

// Fields.
pub const MODEL: &'static str = "model";
pub const ARMOR: &'static str = "armor";
pub const HIT_LOCATION_GROUPS: &'static str = "hitLocationGroups";
pub const HL_TYPE: &'static str = "hlType";
pub const MAX_HP: &'static str = "maxHP";
pub const REGENERATED_HP_PART: &'static str = "regeneratedHPPart";
pub const SPLASH_BOXES: &'static str = "splashBoxes";
pub const THICKNESS: &'static str = "thickness";
pub const DRAFT: &'static str = "draft";
pub const DOCK_Y_OFFSET: &'static str = "dockYOffset";
pub const VISIBILITY_FACTOR: &'static str = "visibilityFactor";
pub const VISIBILITY_FACTOR_BY_PLANE: &'static str = "visibilityFactorByPlane";
pub const MAX_DIST: &'static str = "maxDist";
pub const AMMO_LIST: &'static str = "ammoList";
pub const CAMOUFLAGE: &'static str = "camouflage";
pub const PERMOFLAGES: &'static str = "permoflages";
pub const TITLE: &'static str = "title";

// Prefix of the names of hardpoints.
pub const HP_PREFIX: &'static str = "HP_";

// Keys of `typeinfo`.
pub const TYPEINFO: &'static str = "typeinfo";
pub const TYPEINFO_TYPE: &'static str = "type";
pub const TYPEINFO_NATION: &'static str = "nation";
pub const TYPEINFO_SPECIES: &'static str = "species";

// Keys of the identity of a parameter.
pub const PARAM_ID: &'static str = "id";
pub const PARAM_INDEX: &'static str = "index";
pub const PARAM_NAME: &'static str = "name";

/// The main battery is the artillery, by its label; no other component has that label.
pub proof fn main_batteries_are_artillery(c: ComponentType)
    ensures
        AccessoryMode::MainOnly.includes(label_of(c)) <==> c == ComponentType::Artillery,
{
    reveal_strlit("Hull");
    reveal_strlit("Main Battery");
    reveal_strlit("Secondaries");
    reveal_strlit("AA");
    reveal_strlit("Air Armament");
    reveal_strlit("Directors");
    reveal_strlit("Finders");
    reveal_strlit("Radars");
    reveal_strlit("Torpedoes");
    reveal_strlit("Depth Charges");
    reveal_strlit("Missiles");
    reveal_strlit("Phaser Lasers");
    reveal_strlit("Abilities");
    assert("Main Battery"@.len() == 12 && "Main Battery"@[0] == 'M');
    assert("Hull"@.len() == 4 && "AA"@.len() == 2 && "Secondaries"@.len() == 11);
    assert("Air Armament"@[0] == 'A' && "Directors"@[0] == 'D' && "Finders"@[0] == 'F');
    assert("Radars"@[0] == 'R' && "Torpedoes"@[0] == 'T' && "Depth Charges"@[0] == 'D');
    assert("Missiles"@.len() == 8 && "Phaser Lasers"@[0] == 'P' && "Abilities"@[0] == 'A');
}

} // verus!
