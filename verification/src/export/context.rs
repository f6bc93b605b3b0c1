//! Ships: finding them in the game data, and what a loaded one consists of.
use vstd::prelude::*;

use crate::export::camos;
use crate::export::camos::CamoCatalog;
use crate::export::camos::MatCamoScheme;
use crate::export::hulls;
use crate::export::hulls::HullUpgrade;
use crate::export::hulls::HullUpgradeInfo;
use crate::export::materials;
use crate::export::materials::MaterialEntry;
use crate::export::materials::MfmInfo;
use crate::export::mounts;
use crate::export::mounts::HullPart;
use crate::export::mounts::MountPoint;
use crate::export::mounts::ResolvedMount;
use crate::export::mounts::TurretModel;
use crate::export::paths;
use crate::export::paths::NamedPath;
use crate::export::placements;
use crate::export::placements::Placements;
use crate::export::ship;
use crate::export::ship::PartSource;
use crate::export::ship::ShipExportOptions;
use crate::export::ship::SubModelPlan;
use crate::export::ships;
use crate::export::ships::FindShipError;
use crate::export::ships::ParamInfo;
use crate::export::ships::ShipInfo;
use crate::export::ships::VehicleInfo;
use crate::export::skel_ext_candidates;
use crate::export::skel_ext_candidates::OwnedSkelExt;
use crate::export::skel_ext_candidates::SkelExtManifest;
use crate::export::sub_models::OwnedSubModel;
use crate::export::texture_set::TextureSet;
use crate::export::texture_set::TiledScheme;
use crate::game_params::types;
use crate::game_params::types::ArmorPlate;
use crate::game_params::types::HitLocation;
use crate::models::assets_bin::PrototypeDatabase;
use crate::models::skel_ext;
use crate::models::visual::Matrix4x4;
use crate::models::visual::VisualPrototype;
use crate::text;

verus! {

// ---- Game data --------------------------------------------------------------

/// The game data that ships are found in.
#[derive(Debug)]
pub struct ShipAssets {
    pub db: PrototypeDatabase,
    pub params: Vec<ParamInfo>,
    /// The hull upgrades of each parameter; none for what is no vehicle.
    pub upgrades: Vec<Vec<HullUpgrade>>,
}

/// Why a ship cannot be loaded.
#[derive(Debug)]
pub enum ShipError {
    Search(FindShipError),
    NotInParams { model_dir: String },
    NoModelPath,
    NoVisuals { model_dir: String },
}

pub enum ShipFault {
    Search(ships::FindShipFault),
    NotInParams { model_dir: Seq<char> },
    NoModelPath,
    NoVisuals { model_dir: Seq<char> },
}

impl View for ShipError {
    type V = ShipFault;

    open spec fn view(&self) -> ShipFault {
        match self {
            ShipError::Search(e) => ShipFault::Search(e@),
            ShipError::NotInParams { model_dir } => ShipFault::NotInParams {
                model_dir: model_dir@,
            },
            ShipError::NoModelPath => ShipFault::NoModelPath,
            ShipError::NoVisuals { model_dir } => ShipFault::NoVisuals { model_dir: model_dir@ },
        }
    }
}

/// The message of an error.
pub open spec fn fault_message(e: ShipFault) -> Seq<char> {
    match e {
        ShipFault::Search(f) => ships::fault_message(f),
        ShipFault::NotInParams { model_dir } => "Ship '"@ + model_dir
            + "' not found in GameParams"@,
        ShipFault::NoModelPath => "Vehicle has no model_path"@,
        ShipFault::NoVisuals { model_dir } => "No .visual files found for '"@ + model_dir + "'."@,
    }
}

impl ShipError {
    /// The message of an error.
    pub fn message(&self) -> (r: String)
        ensures
            r@ == fault_message(self@),
    {
        match self {
            ShipError::Search(e) => e.message(),
            ShipError::NotInParams { model_dir } => text::concat3(
                "Ship '",
                model_dir.as_str(),
                "' not found in GameParams",
            ),
            ShipError::NoModelPath => text::copy("Vehicle has no model_path"),
            ShipError::NoVisuals { model_dir } => text::concat3(
                "No .visual files found for '",
                model_dir.as_str(),
                "'.",
            ),
        }
    }
}

/// What a result says, seen through the views of its parts.
pub open spec fn outcome<T: View>(r: Result<T, ShipError>) -> Result<T::V, ShipFault> {
    match r {
        Ok(v) => Ok(v@),
        Err(e) => Err(e@),
    }
}

/// The files that a ship is made of.
pub open spec fn visuals_of(db: PrototypeDatabase, model_dir: Seq<char>) -> Seq<
    (Seq<char>, Seq<char>),
> {
    paths::in_order(
        paths::files_in(db.paths@, ".visual"@, model_dir, false, db.paths@.len() as int),
    )
}

/// The schemes that a ship can wear: its own and those that every ship can wear, each
/// list on its own.
pub open spec fn schemes_for(
    params: Seq<ParamInfo>,
    model_dir: Seq<char>,
    catalog: Option<CamoCatalog>,
) -> (Seq<camos::MatCamoSchemeView>, Seq<camos::MatCamoSchemeView>) {
    match catalog {
        Some(c) => {
            let names = camos::exteriors_of(params, model_dir);
            let own = camos::named_candidates(params, names, names.len() as int);
            let all = camos::universal_candidates(params, params.len() as int);
            (
                camos::schemes_of(own, c, own.len() as int),
                camos::schemes_of(all, c, all.len() as int),
            )
        },
        None => (Seq::empty(), Seq::empty()),
    }
}

impl ShipAssets {
    /// Every parameter has its list of hull upgrades.
    pub open spec fn well_formed(&self) -> bool {
        self.upgrades@.len() == self.params@.len()
    }

    /// What a search for a ship gives.
    pub open spec fn found(&self, name: Seq<char>) -> Result<ships::ShipInfoView, ShipFault> {
        match ships::search_result(
            self.db,
            self.params@,
            name,
            ships::normalised_names(self.params@),
            ships::normalised(name),
        ) {
            Ok(info) => Ok(info),
            Err(f) => Err(ShipFault::Search(f)),
        }
    }

    /// The hull upgrades of a ship, by its model directory.
    pub open spec fn upgrades_of(&self, model_dir: Seq<char>) -> Option<Seq<HullUpgrade>> {
        match ships::vehicle_from(self.params@, model_dir, 0) {
            Some(i) => Some(self.upgrades@[i]@),
            None => None,
        }
    }

    /// Finds a ship by model directory, index key or name.
    pub fn find_ship(&self, name: &str) -> (r: Result<ShipInfo, ShipError>)
        ensures
            outcome(r) == self.found(name@),
    {
        match ships::find_ship(&self.db, &self.params, name) {
            Ok(info) => Ok(info),
            Err(e) => Err(ShipError::Search(e)),
        }
    }

    /// Finds the parameter of a ship by its model directory.
    pub fn find_vehicle(&self, model_dir: &str) -> (r: Result<usize, ShipError>)
        ensures
            match ships::vehicle_from(self.params@, model_dir@, 0) {
                Some(i) => r matches Ok(k) && k == i && k < self.params@.len(),
                None => r matches Err(e) && e@ == (ShipFault::NotInParams { model_dir: model_dir@ }),
            },
    {
        match ships::find_vehicle(&self.params, model_dir) {
            Some(i) => Ok(i),
            None => Err(ShipError::NotInParams { model_dir: text::copy(model_dir) }),
        }
    }

    /// Lists the hull upgrades of a ship in the order of their names.
    pub fn list_hull_upgrades(&self, name: &str) -> (r: Result<Vec<HullUpgradeInfo>, ShipError>)
        requires
            self.well_formed(),
        ensures
            match self.found(name@) {
                Err(f) => r matches Err(e) && e@ == f,
                Ok(info) => match self.upgrades_of(info.model_dir) {
                    None => r matches Err(e) && e@ == (ShipFault::NotInParams {
                        model_dir: info.model_dir,
                    }),
                    Some(upgrades) => r matches Ok(list) && hulls::info_views(list@)
                        == hulls::sorted_infos(upgrades),
                },
            },
    {
        let info = match self.find_ship(name) {
            Ok(info) => info,
            Err(e) => {
                return Err(e);
            },
        };
        match self.find_vehicle(info.model_dir.as_str()) {
            Ok(i) => Ok(hulls::list_hull_upgrades(&self.upgrades[i])),
            Err(e) => Err(e),
        }
    }

    /// Selects the hull upgrade whose mounts a ship is shown with: the parameter of the
    /// ship and the upgrade. A ship that is not found has none.
    pub fn select_hull(&self, model_dir: &str, selection: Option<&str>) -> (r: Option<
        (usize, usize),
    >)
        requires
            self.well_formed(),
        ensures
            match self.upgrades_of(model_dir@) {
                None => r is None,
                Some(upgrades) => match hulls::selected(upgrades, hulls::opt_str(selection)) {
                    Some(k) => r matches Some((i, j)) && j == k && j < upgrades.len()
                        && ships::vehicle_from(self.params@, model_dir@, 0) == Some(i as int),
                    None => r is None,
                },
            },
    {
        match self.find_vehicle(model_dir) {
            Ok(i) => match hulls::select_hull(&self.upgrades[i], selection) {
                Some(j) => Some((i, j)),
                None => None,
            },
            Err(_) => None,
        }
    }

    /// The identity of the ship that the model of a vehicle belongs to.
    pub fn ship_of_vehicle(&self, model_path: Option<&str>) -> (r: Result<ShipInfo, ShipError>)
        ensures
            match model_path {
                Some(path) => r matches Ok(info) && info@ == ships::identity_of_dir(
                    self.params@,
                    ships::dir_name(path@),
                ),
                None => r matches Err(e) && e@ == ShipFault::NoModelPath,
            },
    {
        match model_path {
            Some(path) => Ok(ships::ship_of_model(&self.params, path)),
            None => Err(ShipError::NoModelPath),
        }
    }

    /// Lists the visuals of a ship. A ship has at least one.
    pub fn find_visuals(&self, model_dir: &str) -> (r: Result<Vec<NamedPath>, ShipError>)
        ensures
            if visuals_of(self.db, model_dir@).len() == 0 {
                r matches Err(e) && e@ == (ShipFault::NoVisuals { model_dir: model_dir@ })
            } else {
                r matches Ok(list) && paths::path_views(list@) == visuals_of(self.db, model_dir@)
            },
    {
        let found = paths::find_visual_paths(&self.db, model_dir);
        assert(paths::path_views(found@).len() == found@.len());
        if found.len() == 0 {
            Err(ShipError::NoVisuals { model_dir: text::copy(model_dir) })
        } else {
            Ok(found)
        }
    }

    /// Finds the camouflages that a ship can wear: its own, and those of every ship.
    /// Without a list of camouflages there are none.
    pub fn find_camos(&self, model_dir: &str, catalog: &Option<CamoCatalog>) -> (r: (
        Vec<MatCamoScheme>,
        Vec<MatCamoScheme>,
    ))
        ensures
            camos::scheme_views(r.0@) == schemes_for(self.params@, model_dir@, *catalog).0,
            camos::scheme_views(r.1@) == schemes_for(self.params@, model_dir@, *catalog).1,
    {
        match catalog {
            Some(c) => (
                camos::discover_mat_camo_schemes(&self.params, model_dir, c),
                camos::discover_universal_camo_schemes(&self.params, c),
            ),
            None => {
                let own: Vec<MatCamoScheme> = Vec::new();
                let universal: Vec<MatCamoScheme> = Vec::new();
                assert(camos::scheme_views(own@) =~= Seq::empty());
                assert(camos::scheme_views(universal@) =~= Seq::empty());
                (own, universal)
            },
        }
    }

    /// Lists what a ship can wear: the schemes that there are textures of, and its
    /// camouflages.
    pub fn list_texture_schemes(
        &self,
        model_dir: &str,
        texture_schemes: Vec<String>,
        catalog: &Option<CamoCatalog>,
    ) -> (r: Vec<String>)
        ensures
            ({
                let (own, universal) = schemes_for(self.params@, model_dir@, *catalog);
                text::texts(r@) == text::texts(texture_schemes@) + camos::scheme_labels(own, false)
                    + camos::scheme_labels(universal, true)
            }),
    {
        let (own, universal) = self.find_camos(model_dir, catalog);
        camos::list_texture_schemes(texture_schemes, &own, &universal)
    }
}

/// The names of the materials of the first `n` models.
pub open spec fn model_stems(db: PrototypeDatabase, models: Seq<TurretModel>, n: int) -> Seq<
    Seq<char>,
>
    decreases n,
{
    if n <= 0 {
        Seq::empty()
    } else {
        model_stems(db, models, n - 1) + materials::visual_stems(
            db,
            models[n - 1].sub_model.visual,
        )
    }
}

/// The names of the materials of the first `n` parts.
pub open spec fn part_stems(db: PrototypeDatabase, parts: Seq<OwnedSubModel>, n: int) -> Seq<
    Seq<char>,
>
    decreases n,
{
    if n <= 0 {
        Seq::empty()
    } else {
        part_stems(db, parts, n - 1) + materials::visual_stems(db, parts[n - 1].visual)
    }
}

impl ShipAssets {
    /// Lists the names of the materials of a hull and then of component models, which
    /// textures are searched by.
    pub fn list_stems(&self, parts: &Vec<OwnedSubModel>, models: &Vec<TurretModel>) -> (r: Vec<
        String,
    >)
        ensures
            text::texts(r@) == part_stems(self.db, parts@, parts@.len() as int) + model_stems(
                self.db,
                models@,
                models@.len() as int,
            ),
    {
        let mut out: Vec<String> = Vec::new();
        let mut i: usize = 0;
        assert(text::texts(out@) =~= part_stems(self.db, parts@, 0));
        while i < parts.len()
            invariant
                i <= parts.len(),
                text::texts(out@) == part_stems(self.db, parts@, i as int),
            decreases parts.len() - i,
        {
            let ghost before = out@;
            let mut more = materials::list_stems(&parts[i].visual, &self.db);
            let ghost added = more@;
            out.append(&mut more);
            assert(text::texts(out@) =~= text::texts(before) + text::texts(added));
            i += 1;
        }
        let ghost hull = text::texts(out@);
        i = 0;
        assert(text::texts(out@) =~= hull + model_stems(self.db, models@, 0));
        while i < models.len()
            invariant
                i <= models.len(),
                text::texts(out@) == hull + model_stems(self.db, models@, i as int),
            decreases models.len() - i,
        {
            let ghost before = out@;
            let mut more = materials::list_stems(&models[i].sub_model.visual, &self.db);
            let ghost added = more@;
            out.append(&mut more);
            assert(text::texts(out@) =~= text::texts(before) + text::texts(added));
            assert(text::texts(out@) =~= hull + model_stems(self.db, models@, i + 1));
            i += 1;
        }
        out
    }
}

// ---- Loaded ships -----------------------------------------------------------

/// A loaded ship.
#[derive(Debug)]
pub struct ShipModelContext {
    pub info: ShipInfo,
    pub hull_parts: Vec<OwnedSubModel>,
    pub turret_models: Vec<TurretModel>,
    pub mounts: Vec<ResolvedMount>,
    pub skel_ext_files: Vec<OwnedSkelExt>,
    pub options: ShipExportOptions,
    pub mat_camo_schemes: Vec<MatCamoScheme>,
    /// The armour of the hull, if it is known.
    pub armor_map: Option<Vec<ArmorPlate>>,
    /// The hit locations of the ship, if they are known.
    pub hit_locations: Option<Vec<HitLocation>>,
}

/// The first splash file of some parts, from `i` on.
pub open spec fn splash_from(parts: Seq<OwnedSubModel>, i: int) -> Option<Seq<u8>>
    decreases parts.len() - i,
{
    if i < 0 || i >= parts.len() {
        None
    } else {
        match parts[i].splash_bytes {
            Some(b) => Some(b@),
            None => splash_from(parts, i + 1),
        }
    }
}

/// The materials of the first `n` pieces of an export.
pub open spec fn piece_materials(
    db: PrototypeDatabase,
    ship: ShipModelContext,
    plans: Seq<ship::SubModelPlanView>,
    n: int,
) -> Seq<materials::MfmInfoView>
    decreases n,
{
    if n <= 0 {
        Seq::empty()
    } else {
        let sets = ship.visual_of(plans[n - 1].source).render_sets@;
        piece_materials(db, ship, plans, n - 1) + materials::mfm_infos(db, sets, sets.len() as int)
    }
}

impl ShipModelContext {
    /// Every mounted component has a loaded model.
    pub open spec fn well_formed(&self) -> bool {
        forall|i: int|
            0 <= i < self.mounts@.len() ==> (#[trigger] self.mounts@[i]).turret_model_index
                < self.turret_models@.len()
    }

    /// The visual of a piece of an export.
    pub open spec fn visual_of(&self, source: PartSource) -> VisualPrototype {
        match source {
            PartSource::Hull(i) => self.hull_parts@[i as int].visual,
            PartSource::Mount(i) => self.turret_models@[self.mounts@[i as int].turret_model_index
                as int].sub_model.visual,
        }
    }

    /// The pieces of an export.
    pub open spec fn pieces(&self) -> Seq<ship::SubModelPlanView> {
        ship::hull_plans(self.hull_parts@, self.hull_parts@.len() as int) + ship::mount_plans(
            self.mounts@,
            self.turret_models@,
            ship::embedded(
                self.mounts@,
                self.options.accessory_mode,
                self.mounts@.len() as int,
            ),
        )
    }

    /// The identity of the ship.
    pub fn info(&self) -> (r: &ShipInfo)
        ensures
            *r == self.info,
    {
        &self.info
    }

    /// The names of the hull parts.
    pub fn hull_part_names(&self) -> (r: Vec<&str>)
        ensures
            r@.len() == self.hull_parts@.len(),
            forall|i: int| 0 <= i < r@.len() ==> (#[trigger] r@[i])@ == self.hull_parts@[i].name@,
    {
        let mut out: Vec<&str> = Vec::new();
        let mut i: usize = 0;
        while i < self.hull_parts.len()
            invariant
                i <= self.hull_parts.len(),
                out@.len() == i,
                forall|k: int| 0 <= k < i ==> (#[trigger] out@[k])@ == self.hull_parts@[k].name@,
            decreases self.hull_parts.len() - i,
        {
            out.push(self.hull_parts[i].name.as_str());
            i += 1;
        }
        out
    }

    /// Number of mounted components.
    pub fn mount_count(&self) -> (r: usize)
        ensures
            r == self.mounts@.len(),
    {
        self.mounts.len()
    }

    /// Number of different models of mounted components.
    pub fn unique_turret_count(&self) -> (r: usize)
        ensures
            r == self.turret_models@.len(),
    {
        self.turret_models.len()
    }

    /// The armour of the hull.
    pub fn armor_map(&self) -> (r: Option<&Vec<ArmorPlate>>)
        ensures
            match r {
                Some(plates) => self.armor_map == Some(*plates),
                None => self.armor_map is None,
            },
    {
        match &self.armor_map {
            Some(plates) => Some(plates),
            None => None,
        }
    }

    /// The hit locations of the ship.
    pub fn hit_locations(&self) -> (r: Option<&Vec<HitLocation>>)
        ensures
            match r {
                Some(list) => self.hit_locations == Some(*list),
                None => self.hit_locations is None,
            },
    {
        match &self.hit_locations {
            Some(list) => Some(list),
            None => None,
        }
    }

    /// The geometry files of the hull parts.
    pub fn hull_geom_bytes(&self) -> (r: Vec<&[u8]>)
        ensures
            r@.len() == self.hull_parts@.len(),
            forall|i: int|
                0 <= i < r@.len() ==> (#[trigger] r@[i])@ == self.hull_parts@[i].geom_bytes@,
    {
        let mut out: Vec<&[u8]> = Vec::new();
        let mut i: usize = 0;
        while i < self.hull_parts.len()
            invariant
                i <= self.hull_parts.len(),
                out@.len() == i,
                forall|k: int|
                    0 <= k < i ==> (#[trigger] out@[k])@ == self.hull_parts@[k].geom_bytes@,
            decreases self.hull_parts.len() - i,
        {
            out.push(self.hull_parts[i].geom_bytes.as_slice());
            i += 1;
        }
        out
    }

    /// The geometry files of the models of mounted components.
    pub fn turret_geom_bytes(&self) -> (r: Vec<&[u8]>)
        ensures
            r@.len() == self.turret_models@.len(),
            forall|i: int|
                0 <= i < r@.len() ==> (#[trigger] r@[i])@
                    == self.turret_models@[i].sub_model.geom_bytes@,
    {
        let mut out: Vec<&[u8]> = Vec::new();
        let mut i: usize = 0;
        while i < self.turret_models.len()
            invariant
                i <= self.turret_models.len(),
                out@.len() == i,
                forall|k: int|
                    0 <= k < i ==> (#[trigger] out@[k])@
                        == self.turret_models@[k].sub_model.geom_bytes@,
            decreases self.turret_models.len() - i,
        {
            out.push(self.turret_models[i].sub_model.geom_bytes.as_slice());
            i += 1;
        }
        out
    }

    /// The names of the models of mounted components.
    pub fn turret_model_names(&self) -> (r: Vec<&str>)
        ensures
            r@.len() == self.turret_models@.len(),
            forall|i: int|
                0 <= i < r@.len() ==> (#[trigger] r@[i])@ == self.turret_models@[i].sub_model.name@,
    {
        let mut out: Vec<&str> = Vec::new();
        let mut i: usize = 0;
        while i < self.turret_models.len()
            invariant
                i <= self.turret_models.len(),
                out@.len() == i,
                forall|k: int|
                    0 <= k < i ==> (#[trigger] out@[k])@ == self.turret_models@[k].sub_model.name@,
            decreases self.turret_models.len() - i,
        {
            out.push(self.turret_models[i].sub_model.name.as_str());
            i += 1;
        }
        out
    }

    /// Number of levels of detail of the hull: the most that a part has, 1 if there is no
    /// part.
    pub fn hull_lod_count(&self) -> (r: usize)
        ensures
            r == ship::most_lods(self.hull_parts@, self.hull_parts@.len() as int),
    {
        ship::hull_lod_count(&self.hull_parts)
    }

    /// The splash file of the hull: the first that a part has.
    pub fn hull_splash_bytes(&self) -> (r: Option<&[u8]>)
        ensures
            match r {
                Some(b) => splash_from(self.hull_parts@, 0) == Some(b@),
                None => splash_from(self.hull_parts@, 0) is None,
            },
    {
        let mut i: usize = 0;
        while i < self.hull_parts.len()
            invariant
                i <= self.hull_parts.len(),
                splash_from(self.hull_parts@, i as int) == splash_from(self.hull_parts@, 0),
            decreases self.hull_parts.len() - i,
        {
            if let Some(b) = &self.hull_parts[i].splash_bytes {
                return Some(b.as_slice());
            }
            i += 1;
        }
        None
    }

    /// Lists the placements of the mounted components. They do not depend on what the
    /// export contains.
    pub fn list_placements(&self) -> (r: Placements)
        requires
            self.well_formed(),
        ensures
            forall|section: placements::Section| #[trigger]
                r.part(section) == placements::section_entries(
                    ships::stem_of(self.info@),
                    self.mounts@,
                    self.turret_models@,
                    section,
                    self.mounts@.len() as int,
                ),
    {
        placements::build_placements(self.info.stem(), &self.mounts, &self.turret_models)
    }

    /// Lists the decorative placements. Those of a ship hang from bones at rest, so no
    /// skeleton is needed.
    pub fn list_decorations(&self) -> (r: SkelExtManifest)
        ensures
            r.is_of(self.skel_ext_files@, None),
    {
        skel_ext_candidates::build_manifest(&self.skel_ext_files, &None)
    }

    /// Lists the materials of the hull.
    pub fn list_materials(&self, db: &PrototypeDatabase) -> (r: Vec<MaterialEntry>)
        ensures
            materials::entry_views(r@) == materials::ship_entries(
                *db,
                self.hull_parts@,
                self.hull_parts@.len() as int,
            ),
    {
        materials::list_materials(&self.hull_parts, db)
    }

    fn find_visual(&self, source: PartSource) -> (r: &VisualPrototype)
        requires
            self.well_formed(),
            match source {
                PartSource::Hull(i) => i < self.hull_parts@.len(),
                PartSource::Mount(i) => i < self.mounts@.len(),
            },
        ensures
            *r == self.visual_of(source),
    {
        match source {
            PartSource::Hull(i) => &self.hull_parts[i].visual,
            PartSource::Mount(i) => {
                &self.turret_models[self.mounts[i].turret_model_index].sub_model.visual
            },
        }
    }

    /// Lists the material files of the pieces of the export, piece by piece.
    pub fn list_material_files(&self, db: &PrototypeDatabase) -> (r: Vec<MfmInfo>)
        requires
            self.well_formed(),
        ensures
            materials::info_views(r@) == piece_materials(
                *db,
                *self,
                self.pieces(),
                self.pieces().len() as int,
            ),
    {
        let plans = self.list_pieces();
        let ghost pieces = self.pieces();
        proof {
            ship::embedded_indices_are_in_range(
                self.mounts@,
                self.options.accessory_mode,
                self.mounts@.len() as int,
            );
        }
        let mut out: Vec<MfmInfo> = Vec::new();
        let mut i: usize = 0;
        assert(materials::info_views(out@) =~= piece_materials(*db, *self, pieces, 0));
        assert(ship::plan_views(plans@).len() == plans@.len());
        while i < plans.len()
            invariant
                i <= plans.len(),
                self.well_formed(),
                pieces == self.pieces(),
                pieces == ship::plan_views(plans@),
                forall|k: int|
                    0 <= k < ship::embedded(
                        self.mounts@,
                        self.options.accessory_mode,
                        self.mounts@.len() as int,
                    ).len() ==> 0 <= #[trigger] ship::embedded(
                        self.mounts@,
                        self.options.accessory_mode,
                        self.mounts@.len() as int,
                    )[k] < self.mounts@.len(),
                materials::info_views(out@) == piece_materials(*db, *self, pieces, i as int),
            decreases plans.len() - i,
        {
            let ghost before = out@;
            assert(plans@[i as int].source == pieces[i as int].source);
            proof {
                let n = self.hull_parts.len();
                if i < n {
                    assert(pieces[i as int].source == PartSource::Hull(i));
                } else {
                    let chosen = ship::embedded(
                        self.mounts@,
                        self.options.accessory_mode,
                        self.mounts@.len() as int,
                    );
                    assert(ship::plan_views(plans@).len() == plans@.len());
                    assert(self.pieces().len() == n + chosen.len());
                    let e = chosen[i - n];
                    assert(0 <= e < self.mounts.len());
                    assert(pieces[i as int].source == PartSource::Mount(e as usize));
                }
            }
            let visual = self.find_visual(plans[i].source);
            let mut more = materials::collect_mfm_info(visual, db);
            let ghost added = more@;
            out.append(&mut more);
            assert(materials::info_views(out@) =~= materials::info_views(before)
                + materials::info_views(added));
            i += 1;
        }
        out
    }

    /// Lists the pieces of geometry of the export.
    pub fn list_pieces(&self) -> (r: Vec<SubModelPlan>)
        requires
            self.well_formed(),
        ensures
            ship::plan_views(r@) == self.pieces(),
    {
        ship::plan_sub_models(
            &self.hull_parts,
            &self.mounts,
            &self.turret_models,
            self.options.accessory_mode,
        )
    }
}

// ---- Armour -----------------------------------------------------------------

/// A piece of an export as far as armour goes. That of the hull stands where it is;
/// components have the transform of their hardpoint.
#[derive(Debug)]
pub struct ArmorPiece {
    pub source: PartSource,
    pub hp_name: Option<String>,
    pub transform: Option<Matrix4x4>,
    /// The armour of a component that has its own. All else is armoured like the hull.
    pub mount_armor: Option<Vec<ArmorPlate>>,
}

pub struct ArmorPieceView {
    pub source: PartSource,
    pub hp_name: Option<Seq<char>>,
    pub transform: Option<Seq<u32>>,
    pub mount_armor: Option<Seq<ArmorPlate>>,
}

impl View for ArmorPiece {
    type V = ArmorPieceView;

    open spec fn view(&self) -> ArmorPieceView {
        ArmorPieceView {
            source: self.source,
            hp_name: text::opt_text(self.hp_name),
            transform: mounts::opt_matrix(self.transform),
            mount_armor: types::opt_armor(self.mount_armor),
        }
    }
}

pub open spec fn armor_views(s: Seq<ArmorPiece>) -> Seq<ArmorPieceView> {
    Seq::new(s.len(), |i: int| s[i]@)
}

/// A part of the hull as far as armour goes.
pub open spec fn hull_armor(i: int) -> ArmorPieceView {
    ArmorPieceView {
        source: PartSource::Hull(i as usize),
        hp_name: None,
        transform: None,
        mount_armor: None,
    }
}

/// A component as far as armour goes.
pub open spec fn component_armor(mounts: Seq<ResolvedMount>, i: int) -> ArmorPieceView {
    ArmorPieceView {
        source: PartSource::Mount(i as usize),
        hp_name: Some(mounts[i].hp_name@),
        transform: mounts::opt_matrix(mounts[i].armor_transform),
        mount_armor: types::opt_armor(mounts[i].mount_armor),
    }
}

impl ShipModelContext {
    /// The armour of an export: that of the hull, and that of the components which the
    /// export contains.
    pub open spec fn armor_pieces(&self) -> Seq<ArmorPieceView> {
        let chosen = ship::embedded(
            self.mounts@,
            self.options.accessory_mode,
            self.mounts@.len() as int,
        );
        Seq::new(self.hull_parts@.len(), |i: int| hull_armor(i)) + Seq::new(
            chosen.len(),
            |k: int| component_armor(self.mounts@, chosen[k]),
        )
    }

    /// Lists the armour of the export.
    pub fn list_armor_pieces(&self) -> (r: Vec<ArmorPiece>)
        ensures
            armor_views(r@) == self.armor_pieces(),
    {
        let mut out: Vec<ArmorPiece> = Vec::new();
        let ghost all = self.armor_pieces();
        let hulls: usize = self.hull_parts.len();
        let mut i: usize = 0;
        while i < hulls
            invariant
                i <= hulls,
                hulls == self.hull_parts.len(),
                all == self.armor_pieces(),
                out@.len() == i,
                forall|k: int| 0 <= k < i ==> (#[trigger] out@[k])@ == all[k],
            decreases hulls - i,
        {
            out.push(
                ArmorPiece {
                    source: PartSource::Hull(i),
                    hp_name: None,
                    transform: None,
                    mount_armor: None,
                },
            );
            assert(out@[i as int]@ == hull_armor(i as int));
            i += 1;
        }
        let chosen = ship::embedded_mounts(&self.mounts, self.options.accessory_mode);
        let ghost at = ship::embedded(
            self.mounts@,
            self.options.accessory_mode,
            self.mounts@.len() as int,
        );
        let mut k: usize = 0;
        while k < chosen.len()
            invariant
                k <= chosen.len(),
                hulls == self.hull_parts.len(),
                all == self.armor_pieces(),
                at == ship::embedded(
                    self.mounts@,
                    self.options.accessory_mode,
                    self.mounts@.len() as int,
                ),
                at == chosen@.map_values(|i: usize| i as int),
                forall|k: int| 0 <= k < chosen@.len() ==> (#[trigger] chosen@[k]) < self.mounts@.len(),
                out@.len() == hulls + k,
                forall|j: int| 0 <= j < hulls + k ==> (#[trigger] out@[j])@ == all[j],
            decreases chosen.len() - k,
        {
            let m = &self.mounts[chosen[k]];
            assert(at[k as int] == chosen@[k as int]);
            out.push(
                ArmorPiece {
                    source: PartSource::Mount(chosen[k]),
                    hp_name: Some(text::copy(m.hp_name.as_str())),
                    transform: m.armor_transform,
                    mount_armor: types::copy_armor(&m.mount_armor),
                },
            );
            assert(out@[hulls + k]@ == component_armor(self.mounts@, at[k as int]));
            k += 1;
        }
        assert(armor_views(out@) =~= all);
        out
    }
}

/// What an export consists of.
#[derive(Debug)]
pub struct ExportPlan {
    pub pieces: Vec<SubModelPlan>,
    pub armor: Vec<ArmorPiece>,
    pub textures: TextureSet,
    pub tiled_schemes: Vec<TiledScheme>,
}

impl ShipModelContext {
    /// Plans the export: its geometry, its armour and its textures, given those that were
    /// loaded.
    pub fn plan_export(&self, loaded: TextureSet, tiled: Vec<TiledScheme>) -> (r: ExportPlan)
        requires
            self.well_formed(),
        ensures
            ship::plan_views(r.pieces@) == self.pieces(),
            armor_views(r.armor@) == self.armor_pieces(),
            self.options.textures ==> r.textures == loaded && r.tiled_schemes == tiled,
            !self.options.textures ==> r.textures.is_empty() && r.tiled_schemes@.len() == 0,
    {
        let (textures, tiled_schemes) = self.options.embedded_textures(loaded, tiled);
        ExportPlan {
            pieces: self.list_pieces(),
            armor: self.list_armor_pieces(),
            textures,
            tiled_schemes,
        }
    }
}

// ---- Interactive display ----------------------------------------------------

/// A piece of geometry for interactive display. Hull parts stand where they are;
/// components have transforms in metres and right-handed axes.
#[derive(Debug)]
pub struct InteractivePiece {
    pub source: PartSource,
    pub hp_name: Option<String>,
    /// Transform of the visible geometry.
    pub transform: Option<Matrix4x4>,
    /// Transform of the armour.
    pub armor_transform: Option<Matrix4x4>,
    /// The armour of a component that has its own.
    pub mount_armor: Option<Vec<ArmorPlate>>,
}

pub struct InteractivePieceView {
    pub source: PartSource,
    pub hp_name: Option<Seq<char>>,
    pub transform: Option<Seq<u32>>,
    pub armor_transform: Option<Seq<u32>>,
    pub mount_armor: Option<Seq<ArmorPlate>>,
}

impl View for InteractivePiece {
    type V = InteractivePieceView;

    open spec fn view(&self) -> InteractivePieceView {
        InteractivePieceView {
            source: self.source,
            hp_name: text::opt_text(self.hp_name),
            transform: mounts::opt_matrix(self.transform),
            armor_transform: mounts::opt_matrix(self.armor_transform),
            mount_armor: types::opt_armor(self.mount_armor),
        }
    }
}

pub open spec fn piece_views(s: Seq<InteractivePiece>) -> Seq<InteractivePieceView> {
    Seq::new(s.len(), |i: int| s[i]@)
}

/// A transform in metres and right-handed axes.
pub open spec fn shown_transform(m: Option<Matrix4x4>) -> Option<Seq<u32>> {
    match m {
        Some(m) => Some(skel_ext::in_metres(skel_ext::z_negated(m@))),
        None => None,
    }
}

fn show_transform(m: &Option<Matrix4x4>) -> (r: Option<Matrix4x4>)
    ensures
        mounts::opt_matrix(r) == shown_transform(*m),
{
    match m {
        Some(m) => Some(Matrix4x4(skel_ext::to_metric_glft(m.0))),
        None => None,
    }
}

impl ShipModelContext {
    /// The pieces of an interactive display: every hull part, then every component,
    /// whatever an export contains.
    pub open spec fn shown_pieces(&self) -> Seq<InteractivePieceView> {
        Seq::new(
            self.hull_parts@.len(),
            |i: int|
                InteractivePieceView {
                    source: PartSource::Hull(i as usize),
                    hp_name: None,
                    transform: None,
                    armor_transform: None,
                    mount_armor: None,
                },
        ) + Seq::new(
            self.mounts@.len(),
            |i: int|
                InteractivePieceView {
                    source: PartSource::Mount(i as usize),
                    hp_name: Some(self.mounts@[i].hp_name@),
                    transform: shown_transform(self.mounts@[i].transform),
                    armor_transform: shown_transform(self.mounts@[i].armor_transform),
                    mount_armor: types::opt_armor(self.mounts@[i].mount_armor),
                },
        )
    }

    /// Lists the pieces of an interactive display.
    pub fn list_shown_pieces(&self) -> (r: Vec<InteractivePiece>)
        ensures
            piece_views(r@) == self.shown_pieces(),
    {
        let mut out: Vec<InteractivePiece> = Vec::new();
        let ghost all = self.shown_pieces();
        let hulls: usize = self.hull_parts.len();
        let mut i: usize = 0;
        while i < hulls
            invariant
                i <= hulls,
                hulls == self.hull_parts.len(),
                all == self.shown_pieces(),
                out@.len() == i,
                forall|k: int| 0 <= k < i ==> (#[trigger] out@[k])@ == all[k],
            decreases hulls - i,
        {
            out.push(
                InteractivePiece {
                    source: PartSource::Hull(i),
                    hp_name: None,
                    transform: None,
                    armor_transform: None,
                    mount_armor: None,
                },
            );
            i += 1;
        }
        i = 0;
        while i < self.mounts.len()
            invariant
                i <= self.mounts.len(),
                hulls == self.hull_parts.len(),
                all == self.shown_pieces(),
                out@.len() == hulls + i,
                forall|k: int| 0 <= k < hulls + i ==> (#[trigger] out@[k])@ == all[k],
            decreases self.mounts.len() - i,
        {
            let m = &self.mounts[i];
            out.push(
                InteractivePiece {
                    source: PartSource::Mount(i),
                    hp_name: Some(text::copy(m.hp_name.as_str())),
                    transform: show_transform(&m.transform),
                    armor_transform: show_transform(&m.armor_transform),
                    mount_armor: types::copy_armor(&m.mount_armor),
                },
            );
            i += 1;
        }
        assert(piece_views(out@) =~= all);
        out
    }
}

// ---- Loading ----------------------------------------------------------------

/// What a ship is loaded from, besides the game data.
#[derive(Debug)]
pub struct ShipFiles {
    pub hull_parts: Vec<OwnedSubModel>,
    /// The nodes of the hull parts with their transforms.
    pub hull_nodes: Vec<HullPart>,
    /// The mount points of the selected hull upgrade.
    pub mount_points: Vec<MountPoint>,
    /// The models of the mount points, as far as they can be loaded.
    pub turret_models: Vec<TurretModel>,
    pub skel_ext_files: Vec<OwnedSkelExt>,
}

impl ShipModelContext {
    /// Whether the mounted components are those of some files: the mount points whose
    /// model is loaded and whose hardpoint is found.
    pub open spec fn mounts_follow(
        &self,
        db: PrototypeDatabase,
        hull_nodes: Seq<HullPart>,
        points: Seq<MountPoint>,
    ) -> bool {
        let table = mounts::hull_hardpoints(
            db,
            hull_nodes,
            self.info.model_dir@,
            hull_nodes.len() as int,
        );
        let plans = mounts::mount_plans(points.len() as int, table, points, self.turret_models@);
        &&& self.mounts@.len() == plans.len()
        &&& forall|k: int|
            0 <= k < plans.len() ==> (#[trigger] self.mounts@[k]).follows(
                plans[k],
                db,
                points,
                self.turret_models@,
            )
    }
}

/// The armour of a vehicle, if there is one.
pub open spec fn armor_of(vehicle: Option<&VehicleInfo>) -> Option<Seq<ArmorPlate>> {
    match vehicle {
        Some(v) => types::opt_armor(v.armor),
        None => None,
    }
}

/// The hit locations of a vehicle, if there is one.
pub open spec fn locations_of(vehicle: Option<&VehicleInfo>) -> Option<
    Seq<types::HitLocationView>,
> {
    match vehicle {
        Some(v) => types::opt_locations(v.hit_locations),
        None => None,
    }
}

impl ShipAssets {
    /// Puts a ship together from its files: resolves its mounted components, finds its
    /// camouflages, and takes its armour from its vehicle.
    pub fn assemble_ship(
        &self,
        info: ShipInfo,
        vehicle: Option<&VehicleInfo>,
        files: ShipFiles,
        options: ShipExportOptions,
        catalog: &Option<CamoCatalog>,
    ) -> (r: ShipModelContext)
        ensures
            r.well_formed(),
            r.info == info,
            r.hull_parts == files.hull_parts,
            r.turret_models == files.turret_models,
            r.skel_ext_files == files.skel_ext_files,
            r.options == options,
            r.mounts_follow(self.db, files.hull_nodes@, files.mount_points@),
            ({
                let (own, universal) = schemes_for(self.params@, info.model_dir@, *catalog);
                camos::scheme_views(r.mat_camo_schemes@) == own + universal
            }),
            types::opt_armor(r.armor_map) == armor_of(vehicle),
            types::opt_locations(r.hit_locations) == locations_of(vehicle),
    {
        let table = mounts::collect_hardpoints(
            &self.db,
            &files.hull_nodes,
            info.model_dir.as_str(),
        );
        let resolved = mounts::load_mounts(
            &self.db,
            &table,
            &files.mount_points,
            &files.turret_models,
        );
        let (own, mut universal) = self.find_camos(info.model_dir.as_str(), catalog);
        let mut schemes = own;
        let ghost (first, second) = (schemes@, universal@);
        schemes.append(&mut universal);
        assert(camos::scheme_views(schemes@) =~= camos::scheme_views(first) + camos::scheme_views(
            second,
        ));
        let (armor_map, hit_locations) = match vehicle {
            Some(v) => (types::copy_armor(&v.armor), types::copy_locations(&v.hit_locations)),
            None => (None, None),
        };
        ShipModelContext {
            info,
            hull_parts: files.hull_parts,
            turret_models: files.turret_models,
            mounts: resolved,
            skel_ext_files: files.skel_ext_files,
            options,
            mat_camo_schemes: schemes,
            armor_map,
            hit_locations,
        }
    }
}

// ---- Laws -------------------------------------------------------------------

/// Every hull part is a piece of an export, whatever components the export contains.
pub proof fn hull_parts_are_always_exported(ship: ShipModelContext)
    ensures
        ship.pieces().len() >= ship.hull_parts@.len(),
        forall|i: int|
            0 <= i < ship.hull_parts@.len() ==> (#[trigger] ship.pieces()[i]).source
                == PartSource::Hull(i as usize) && ship.pieces()[i].name
                == ship.hull_parts@[i].name@ && ship.pieces()[i].group == "Hull"@,
{
}

/// A component is a piece of an export if and only if the mode of the export includes its
/// display group.
pub proof fn exported_components_are_those_of_the_mode(ship: ShipModelContext, m: int)
    requires
        0 <= m < ship.mounts@.len(),
    ensures
        ship.options.accessory_mode.includes(ship::group_of(ship.mounts@[m])) <==> exists|i: int|
            0 <= i < ship.pieces().len() && (#[trigger] ship.pieces()[i]).source
                == PartSource::Mount(m as usize),
{
    let mode = ship.options.accessory_mode;
    let n = ship.mounts@.len() as int;
    let chosen = ship::embedded(ship.mounts@, mode, n);
    let hulls = ship.hull_parts@.len();
    let pieces = ship.pieces();
    ship::exports_keep_the_order_of_components(ship.mounts@, mode, n);
    ship::embedded_indices_are_in_range(ship.mounts@, mode, n);
    assert(ship.mounts.len() == n);
    if mode.includes(ship::group_of(ship.mounts@[m])) {
        let k = choose|k: int| 0 <= k < chosen.len() && chosen[k] == m;
        assert(pieces[hulls + k].source == PartSource::Mount(m as usize));
    }
    assert forall|i: int| 0 <= i < pieces.len() && (#[trigger] pieces[i]).source
        == PartSource::Mount(m as usize) implies mode.includes(
        ship::group_of(ship.mounts@[m]),
    ) by {
        if i < hulls {
            assert(pieces[i].source == PartSource::Hull(i as usize));
        } else {
            let c = chosen[i - hulls];
            assert(pieces[i].source == PartSource::Mount(c as usize));
            assert(c == m);
        }
    }
}

/// The armour of an export comes from the same parts and components as its geometry.
pub proof fn armor_belongs_to_the_pieces(ship: ShipModelContext)
    ensures
        ship.armor_pieces().len() == ship.pieces().len(),
        forall|i: int|
            0 <= i < ship.pieces().len() ==> (#[trigger] ship.armor_pieces()[i]).source
                == ship.pieces()[i].source,
{
}

/// Without components, an export consists of the hull parts alone.
pub proof fn excluded_components_leave_the_hull(ship: ShipModelContext)
    requires
        ship.options.accessory_mode is Exclude,
    ensures
        ship.pieces() == ship::hull_plans(ship.hull_parts@, ship.hull_parts@.len() as int),
{
    ship::exports_keep_the_order_of_components(
        ship.mounts@,
        ship.options.accessory_mode,
        ship.mounts@.len() as int,
    );
    assert(ship.pieces() =~= ship::hull_plans(
        ship.hull_parts@,
        ship.hull_parts@.len() as int,
    ));
}

/// What an export contains makes no difference to the placements and the materials that
/// are listed of a ship.
pub proof fn listings_do_not_depend_on_the_export(
    db: PrototypeDatabase,
    a: ShipModelContext,
    options: ShipExportOptions,
)
    ensures
        ({
            let b = ShipModelContext { options, ..a };
            let n = a.mounts@.len() as int;
            &&& forall|section: placements::Section| #[trigger]
                placements::section_entries(
                    ships::stem_of(a.info@),
                    a.mounts@,
                    a.turret_models@,
                    section,
                    n,
                ) == placements::section_entries(
                    ships::stem_of(b.info@),
                    b.mounts@,
                    b.turret_models@,
                    section,
                    b.mounts@.len() as int,
                )
            &&& materials::ship_entries(db, a.hull_parts@, a.hull_parts@.len() as int)
                == materials::ship_entries(db, b.hull_parts@, b.hull_parts@.len() as int)
        }),
{
}

/// Every component is shown where its model stands, and its armour where its armour
/// stands; hull parts are shown as they are.
pub proof fn components_are_shown_in_place(ship: ShipModelContext, i: int)
    requires
        0 <= i < ship.mounts@.len(),
    ensures
        ship.shown_pieces().len() == ship.hull_parts@.len() + ship.mounts@.len(),
        ({
            let p = ship.shown_pieces()[ship.hull_parts@.len() + i];
            &&& p.source == PartSource::Mount(i as usize)
            &&& p.hp_name == Some(ship.mounts@[i].hp_name@)
            &&& (ship.mounts@[i].transform matches Some(m) ==> p.transform == Some(
                skel_ext::in_metres(skel_ext::z_negated(m@)),
            ))
            &&& (ship.mounts@[i].armor_transform matches Some(m) ==> p.armor_transform == Some(
                skel_ext::in_metres(skel_ext::z_negated(m@)),
            ))
            &&& p.mount_armor == types::opt_armor(ship.mounts@[i].mount_armor)
        }),
        forall|k: int|
            0 <= k < ship.hull_parts@.len() ==> (#[trigger] ship.shown_pieces()[k]).source
                == PartSource::Hull(k as usize) && ship.shown_pieces()[k].transform is None,
{
}

/// The armour of an exported component stands where its hardpoint puts it, under the name
/// of the hardpoint.
pub proof fn armor_stands_at_its_hardpoint(ship: ShipModelContext, k: int)
    requires
        0 <= k < ship.armor_pieces().len(),
        ship.armor_pieces()[k].source matches PartSource::Mount(i) && i < ship.mounts@.len(),
    ensures
        ({
            let i = ship.armor_pieces()[k].source->Mount_0 as int;
            &&& ship.armor_pieces()[k].hp_name == Some(ship.mounts@[i].hp_name@)
            &&& ship.armor_pieces()[k].transform == mounts::opt_matrix(
                ship.mounts@[i].armor_transform,
            )
            &&& ship.armor_pieces()[k].mount_armor == types::opt_armor(ship.mounts@[i].mount_armor)
        }),
{
    let n = ship.mounts@.len() as int;
    let chosen = ship::embedded(ship.mounts@, ship.options.accessory_mode, n);
    let h = ship.hull_parts@.len() as int;
    ship::embedded_indices_are_in_range(ship.mounts@, ship.options.accessory_mode, n);
    assert(ship.mounts.len() == n);
    if k >= h {
        assert(0 <= chosen[k - h] < n);
    }
}

/// The splash file of a hull is that of its first part that has one.
pub proof fn first_splash_files_count(parts: Seq<OwnedSubModel>, i: int, k: int)
    requires
        0 <= i <= k < parts.len(),
        parts[k].splash_bytes is Some,
        forall|j: int| i <= j < k ==> (#[trigger] parts[j]).splash_bytes is None,
    ensures
        splash_from(parts, i) == Some((parts[k].splash_bytes->0)@),
    decreases k - i,
{
    if i < k {
        first_splash_files_count(parts, i + 1, k);
    }
}

/// The names of the materials of every hull part are listed, in the order of the part.
pub proof fn hull_parts_list_their_stems(db: PrototypeDatabase, all: Seq<OwnedSubModel>, n: int, k: int)
    requires
        0 <= k < n <= all.len(),
    ensures
        ({
            let own = materials::visual_stems(db, all[k].visual);
            let list = part_stems(db, all, n);
            exists|at: int|
                0 <= at && at + own.len() <= list.len() && #[trigger] list.subrange(
                    at,
                    at + own.len(),
                ) == own
        }),
    decreases n,
{
    let own = materials::visual_stems(db, all[k].visual);
    let list = part_stems(db, all, n);
    let before = part_stems(db, all, n - 1);
    if k == n - 1 {
        let at = before.len() as int;
        assert(list.subrange(at, at + own.len()) =~= own);
    } else {
        hull_parts_list_their_stems(db, all, n - 1, k);
        let at = choose|at: int|
            0 <= at && at + own.len() <= before.len() && #[trigger] before.subrange(
                at,
                at + own.len(),
            ) == own;
        assert(list.subrange(at, at + own.len()) =~= before.subrange(at, at + own.len()));
    }
}

/// The names of the materials of every component model are listed, in the order of the model.
pub proof fn models_list_their_stems(db: PrototypeDatabase, all: Seq<TurretModel>, n: int, k: int)
    requires
        0 <= k < n <= all.len(),
    ensures
        ({
            let own = materials::visual_stems(db, all[k].sub_model.visual);
            let list = model_stems(db, all, n);
            exists|at: int|
                0 <= at && at + own.len() <= list.len() && #[trigger] list.subrange(
                    at,
                    at + own.len(),
                ) == own
        }),
    decreases n,
{
    let own = materials::visual_stems(db, all[k].sub_model.visual);
    let list = model_stems(db, all, n);
    let before = model_stems(db, all, n - 1);
    if k == n - 1 {
        let at = before.len() as int;
        assert(list.subrange(at, at + own.len()) =~= own);
    } else {
        models_list_their_stems(db, all, n - 1, k);
        let at = choose|at: int|
            0 <= at && at + own.len() <= before.len() && #[trigger] before.subrange(
                at,
                at + own.len(),
            ) == own;
        assert(list.subrange(at, at + own.len()) =~= before.subrange(at, at + own.len()));
    }
}

/// The hull upgrades of a ship are those of the first vehicle whose model path holds its
/// directory.
pub proof fn upgrades_are_those_of_the_vehicle(assets: ShipAssets, model_dir: Seq<char>, i: int)
    requires
        0 <= i < assets.params@.len(),
        ships::model_holds(assets.params@[i], model_dir),
        forall|j: int| 0 <= j < i ==> !ships::model_holds(#[trigger] assets.params@[j], model_dir),
    ensures
        assets.upgrades_of(model_dir) == Some(assets.upgrades@[i]@),
{
    ships::first_vehicles_count(assets.params@, model_dir, 0, i);
}

/// A ship that names no exteriors has no camouflages of its own, and those that every ship
/// can wear are the same for all ships.
pub proof fn own_camouflages_are_named_by_the_ship(
    params: Seq<ParamInfo>,
    model_dir: Seq<char>,
    other: Seq<char>,
    catalog: Option<CamoCatalog>,
)
    ensures
        camos::exteriors_of(params, model_dir).len() == 0 ==> schemes_for(
            params,
            model_dir,
            catalog,
        ).0.len() == 0,
        schemes_for(params, model_dir, catalog).1 == schemes_for(params, other, catalog).1,
        catalog is None ==> schemes_for(params, model_dir, catalog).1.len() == 0,
{
}

} // verus!
