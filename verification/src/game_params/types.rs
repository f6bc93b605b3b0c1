//! Kinds of ships and of the things mounted on them, and their armour.
use vstd::prelude::*;

use crate::text;

verus! {

/// Class of a ship.
#[derive(Debug, Clone, Copy, PartialEq, Eq, Structural)]
pub enum Species {
    AirCarrier,
    Battleship,
    Cruiser,
    Destroyer,
    Submarine,
    /// A class of no ship.
    Other,
}

/// The name of a ship class; empty for a class of no ship.
pub open spec fn species_name(s: Species) -> Seq<char> {
    match s {
        Species::AirCarrier => "AirCarrier"@,
        Species::Battleship => "Battleship"@,
        Species::Cruiser => "Cruiser"@,
        Species::Destroyer => "Destroyer"@,
        Species::Submarine => "Submarine"@,
        Species::Other => ""@,
    }
}

impl Species {
    /// The name of a ship class.
    pub fn name(&self) -> (r: &'static str)
        ensures
            r@ == species_name(*self),
    {
        match self {
            Species::AirCarrier => "AirCarrier",
            Species::Battleship => "Battleship",
            Species::Cruiser => "Cruiser",
            Species::Destroyer => "Destroyer",
            Species::Submarine => "Submarine",
            Species::Other => "",
        }
    }
}

/// Kind of a mounted component.
#[derive(Debug, Clone, Copy, PartialEq, Eq, Structural)]
pub enum MountSpecies {
    Main,
    Secondary,
    AAircraft,
    Torpedo,
    DCharge,
    FireControl,
    Search,
    MissileGun,
    Decoration,
}

/// The name of a kind of component.
pub open spec fn mount_species_name(s: MountSpecies) -> Seq<char> {
    match s {
        MountSpecies::Main => "Main"@,
        MountSpecies::Secondary => "Secondary"@,
        MountSpecies::AAircraft => "AAircraft"@,
        MountSpecies::Torpedo => "Torpedo"@,
        MountSpecies::DCharge => "DCharge"@,
        MountSpecies::FireControl => "FireControl"@,
        MountSpecies::Search => "Search"@,
        MountSpecies::MissileGun => "MissileGun"@,
        MountSpecies::Decoration => "Decoration"@,
    }
}

impl MountSpecies {
    /// The name of a kind of component.
    pub fn name(&self) -> (r: &'static str)
        ensures
            r@ == mount_species_name(*self),
    {
        match self {
            MountSpecies::Main => "Main",
            MountSpecies::Secondary => "Secondary",
            MountSpecies::AAircraft => "AAircraft",
            MountSpecies::Torpedo => "Torpedo",
            MountSpecies::DCharge => "DCharge",
            MountSpecies::FireControl => "FireControl",
            MountSpecies::Search => "Search",
            MountSpecies::MissileGun => "MissileGun",
            MountSpecies::Decoration => "Decoration",
        }
    }
}

// ---- Armour -----------------------------------------------------------------

/// The armour of a zone.
#[derive(Debug, Clone, Copy, PartialEq, Eq, Structural)]
pub struct ArmorPlate {
    /// Number of the zone.
    pub zone: u32,
    /// Thickness in millimetres, in single precision.
    pub thickness: u32,
}

/// The armour of a thing, if it has any.
pub open spec fn opt_armor(armor: Option<Vec<ArmorPlate>>) -> Option<Seq<ArmorPlate>> {
    match armor {
        Some(plates) => Some(plates@),
        None => None,
    }
}

/// Copies the armour of a thing.
pub fn copy_armor(armor: &Option<Vec<ArmorPlate>>) -> (r: Option<Vec<ArmorPlate>>)
    ensures
        opt_armor(r) == opt_armor(*armor),
{
    match armor {
        Some(plates) => {
            let mut out: Vec<ArmorPlate> = Vec::new();
            let mut i: usize = 0;
            while i < plates.len()
                invariant
                    i <= plates.len(),
                    out@ == plates@.take(i as int),
                decreases plates.len() - i,
            {
                out.push(plates[i]);
                i += 1;
                assert(out@ =~= plates@.take(i as int));
            }
            assert(out@ =~= plates@);
            Some(out)
        },
        None => None,
    }
}

/// A part of a ship that takes hits, such as the citadel.
#[derive(Debug)]
pub struct HitLocation {
    pub name: String,
    /// What the game parameters say of it, by key.
    pub attributes: Vec<(String, String)>,
}

pub struct HitLocationView {
    pub name: Seq<char>,
    pub attributes: Seq<(Seq<char>, Seq<char>)>,
}

impl View for HitLocation {
    type V = HitLocationView;

    open spec fn view(&self) -> HitLocationView {
        HitLocationView {
            name: self.name@,
            attributes: Seq::new(
                self.attributes@.len(),
                |i: int| (self.attributes@[i].0@, self.attributes@[i].1@),
            ),
        }
    }
}

/// The hit locations of a ship, if they are known.
pub open spec fn opt_locations(locations: Option<Vec<HitLocation>>) -> Option<
    Seq<HitLocationView>,
> {
    match locations {
        Some(list) => Some(Seq::new(list@.len(), |i: int| list@[i]@)),
        None => None,
    }
}

fn copy_location(location: &HitLocation) -> (r: HitLocation)
    ensures
        r@ == location@,
{
    let mut attributes: Vec<(String, String)> = Vec::new();
    let mut i: usize = 0;
    while i < location.attributes.len()
        invariant
            i <= location.attributes.len(),
            attributes@.len() == i,
            forall|k: int|
                0 <= k < i ==> (#[trigger] attributes@[k]).0@ == location.attributes@[k].0@
                    && attributes@[k].1@ == location.attributes@[k].1@,
        decreases location.attributes.len() - i,
    {
        let key = text::copy(location.attributes[i].0.as_str());
        let value = text::copy(location.attributes[i].1.as_str());
        attributes.push((key, value));
        i += 1;
    }
    let r = HitLocation { name: text::copy(location.name.as_str()), attributes };
    assert(r@.attributes =~= location@.attributes);
    r
}

/// Copies the hit locations of a ship.
pub fn copy_locations(locations: &Option<Vec<HitLocation>>) -> (r: Option<Vec<HitLocation>>)
    ensures
        opt_locations(r) == opt_locations(*locations),
{
    match locations {
        Some(list) => {
            let mut out: Vec<HitLocation> = Vec::new();
            let mut i: usize = 0;
            while i < list.len()
                invariant
                    i <= list.len(),
                    out@.len() == i,
                    forall|k: int| 0 <= k < i ==> (#[trigger] out@[k])@ == list@[k]@,
                decreases list.len() - i,
            {
                out.push(copy_location(&list[i]));
                i += 1;
            }
            let r = Some(out);
            assert(opt_locations(r)->0 =~= opt_locations(*locations)->0);
            r
        },
        None => None,
    }
}

} // verus!
