//! The prototype database: paths, strings and prototype records by id.
use vstd::prelude::*;

use crate::models::material::MaterialPrototype;
use crate::text;

verus! {

/// Table of material prototypes.
pub const MATERIAL_BLOB_INDEX: usize = 0;

/// Table of visual prototypes.
pub const VISUAL_BLOB_INDEX: usize = 1;

/// Table of model prototypes.
pub const MODEL_BLOB_INDEX: usize = 3;

/// A file or directory of the asset tree.
#[derive(Debug)]
pub struct PathEntry {
    /// Leaf name.
    pub name: String,
    pub full_path: String,
    pub self_id: u64,
}

/// A string with its id.
#[derive(Debug)]
pub struct StringEntry {
    pub id: u32,
    pub text: String,
}

/// Where a prototype record stands.
#[derive(Debug, Clone, Copy, PartialEq, Eq, Structural)]
pub struct RecordLocation {
    pub blob_index: usize,
    pub record_index: usize,
}

/// A resource with the location of its prototype, unless that cannot be decoded.
#[derive(Debug, Clone, Copy, PartialEq, Eq, Structural)]
pub struct ResourceEntry {
    pub self_id: u64,
    pub location: Option<RecordLocation>,
}

/// The prototype database.
#[derive(Debug)]
pub struct PrototypeDatabase {
    pub paths: Vec<PathEntry>,
    pub strings: Vec<StringEntry>,
    pub resources: Vec<ResourceEntry>,
    /// Material prototypes by record; nothing where a record cannot be parsed.
    pub materials: Vec<Option<MaterialPrototype>>,
    /// Visual resource id of each model prototype; nothing where a record cannot be
    /// parsed.
    pub model_visuals: Vec<Option<u64>>,
    /// Number of visual prototypes.
    pub visual_count: usize,
}

/// Index of the first entry with the given id, from `i` on.
pub open spec fn path_index_from(paths: Seq<PathEntry>, self_id: u64, i: int) -> Option<int>
    decreases paths.len() - i,
{
    if i < 0 || i >= paths.len() {
        None
    } else if paths[i].self_id == self_id {
        Some(i)
    } else {
        path_index_from(paths, self_id, i + 1)
    }
}

/// The text of the first string with the given id, from `i` on.
pub open spec fn string_from(strings: Seq<StringEntry>, id: u32, i: int) -> Option<Seq<char>>
    decreases strings.len() - i,
{
    if i < 0 || i >= strings.len() {
        None
    } else if strings[i].id == id {
        Some(strings[i].text@)
    } else {
        string_from(strings, id, i + 1)
    }
}

/// The location of the first resource with the given id, from `i` on.
pub open spec fn location_from(
    resources: Seq<ResourceEntry>,
    self_id: u64,
    i: int,
) -> Option<RecordLocation>
    decreases resources.len() - i,
{
    if i < 0 || i >= resources.len() {
        None
    } else if resources[i].self_id == self_id {
        resources[i].location
    } else {
        location_from(resources, self_id, i + 1)
    }
}

/// Whether a resource with the given id is listed.
pub open spec fn lists_resource(resources: Seq<ResourceEntry>, self_id: u64) -> bool {
    exists|i: int| 0 <= i < resources.len() && (#[trigger] resources[i]).self_id == self_id
}

impl PrototypeDatabase {
    /// Index of the path with the given id.
    pub open spec fn path_index(&self, self_id: u64) -> Option<int> {
        path_index_from(self.paths@, self_id, 0)
    }

    /// The string with the given id.
    pub open spec fn string(&self, id: u32) -> Option<Seq<char>> {
        string_from(self.strings@, id, 0)
    }

    /// Where the prototype with the given id stands.
    pub open spec fn location(&self, self_id: u64) -> Option<RecordLocation> {
        location_from(self.resources@, self_id, 0)
    }

    /// Finds the path with the given id.
    pub fn find_path(&self, self_id: u64) -> (r: Option<usize>)
        ensures
            match r {
                Some(i) => self.path_index(self_id) == Some(i as int) && i < self.paths@.len(),
                None => self.path_index(self_id) is None,
            },
    {
        let mut i: usize = 0;
        while i < self.paths.len()
            invariant
                i <= self.paths.len(),
                path_index_from(self.paths@, self_id, i as int) == self.path_index(self_id),
            decreases self.paths.len() - i,
        {
            if self.paths[i].self_id == self_id {
                return Some(i);
            }
            i += 1;
        }
        None
    }

    /// Finds the string with the given id.
    pub fn get_string_by_id(&self, id: u32) -> (r: Option<String>)
        ensures
            text::opt_text(r) == self.string(id),
    {
        let mut i: usize = 0;
        while i < self.strings.len()
            invariant
                i <= self.strings.len(),
                string_from(self.strings@, id, i as int) == self.string(id),
            decreases self.strings.len() - i,
        {
            if self.strings[i].id == id {
                return Some(text::copy(self.strings[i].text.as_str()));
            }
            i += 1;
        }
        None
    }

    /// Finds the prototype with the given id.
    pub fn find_location(&self, self_id: u64) -> (r: Option<RecordLocation>)
        ensures
            r == self.location(self_id),
    {
        let mut i: usize = 0;
        while i < self.resources.len()
            invariant
                i <= self.resources.len(),
                location_from(self.resources@, self_id, i as int) == self.location(self_id),
            decreases self.resources.len() - i,
        {
            if self.resources[i].self_id == self_id {
                return self.resources[i].location;
            }
            i += 1;
        }
        None
    }

    /// The record of the material with the given id, if the id leads to the material
    /// table and into it.
    pub open spec fn material_record(&self, mfm_path_id: u64) -> Option<int> {
        match self.location(mfm_path_id) {
            Some(at) => if at.blob_index == MATERIAL_BLOB_INDEX && at.record_index
                < self.materials@.len() && self.materials@[at.record_index as int] is Some {
                Some(at.record_index as int)
            } else {
                None
            },
            None => None,
        }
    }
}

/// Looks up the material with the given id.
pub fn parse_mfm_from_db(db: &PrototypeDatabase, mfm_path_id: u64) -> (r: Option<
    &MaterialPrototype,
>)
    ensures
        match db.material_record(mfm_path_id) {
            Some(i) => r == Some(&db.materials@[i]->0),
            None => r is None,
        },
{
    match db.find_location(mfm_path_id) {
        Some(at) => {
            if at.blob_index != MATERIAL_BLOB_INDEX || at.record_index >= db.materials.len() {
                return None;
            }
            match &db.materials[at.record_index] {
                Some(mat) => Some(mat),
                None => None,
            }
        },
        None => None,
    }
}

/// Why a visual could not be found.
#[derive(Debug, Clone, Copy, PartialEq, Eq, Structural)]
pub enum VisualFault {
    /// No resource has the name.
    NotFound,
    /// A record lies outside its table or cannot be parsed.
    BadRecord,
    /// The model names no visual.
    NullVisual,
    /// The visual that the model names is not listed.
    UnknownVisual { visual_resource_id: u64 },
    /// The location of the visual that the model names cannot be decoded.
    BadLocation { visual_resource_id: u64 },
    /// The visual that the model names is in another table.
    NotAVisual { blob_index: usize },
    /// The name leads to a table of neither visuals nor models.
    UnexpectedTable { blob_index: usize },
}

/// The visual record that a location leads to: itself if it is in the visual table,
/// the visual that the model names if it is in the model table.
pub open spec fn visual_at(db: PrototypeDatabase, at: Option<RecordLocation>) -> Result<
    int,
    VisualFault,
> {
    match at {
        None => Err(VisualFault::NotFound),
        Some(loc) => if loc.blob_index == VISUAL_BLOB_INDEX {
            if loc.record_index < db.visual_count {
                Ok(loc.record_index as int)
            } else {
                Err(VisualFault::BadRecord)
            }
        } else if loc.blob_index == MODEL_BLOB_INDEX {
            if loc.record_index >= db.model_visuals@.len() {
                Err(VisualFault::BadRecord)
            } else {
                match db.model_visuals@[loc.record_index as int] {
                    None => Err(VisualFault::BadRecord),
                    Some(id) => visual_of_model(db, id),
                }
            }
        } else {
            Err(VisualFault::UnexpectedTable { blob_index: loc.blob_index })
        },
    }
}

/// The visual record with the given id, which a model names.
pub open spec fn visual_of_model(db: PrototypeDatabase, id: u64) -> Result<int, VisualFault> {
    if id == 0 {
        Err(VisualFault::NullVisual)
    } else if !lists_resource(db.resources@, id) {
        Err(VisualFault::UnknownVisual { visual_resource_id: id })
    } else {
        match db.location(id) {
            None => Err(VisualFault::BadLocation { visual_resource_id: id }),
            Some(loc) => if loc.blob_index != VISUAL_BLOB_INDEX {
                Err(VisualFault::NotAVisual { blob_index: loc.blob_index })
            } else if loc.record_index < db.visual_count {
                Ok(loc.record_index as int)
            } else {
                Err(VisualFault::BadRecord)
            },
        }
    }
}

/// The message for a visual that could not be found. Its name comes from the caller.
pub open spec fn fault_message(fault: VisualFault, name: Seq<char>) -> Seq<char> {
    match fault {
        VisualFault::NotFound => "Could not resolve visual: "@ + name,
        VisualFault::BadRecord => "Failed to get visual prototype data: "@ + name,
        VisualFault::NullVisual => "ModelPrototype for '"@ + name
            + "' has null visualResourceId"@,
        VisualFault::UnknownVisual { visual_resource_id } => "visualResourceId 0x"@
            + text::zero_padded(text::hex(visual_resource_id as int), 16)
            + " from ModelPrototype '"@ + name + "' not found in r2p map"@,
        VisualFault::BadLocation { visual_resource_id } =>
        "Failed to decode r2p value for visual resource 0x"@ + text::zero_padded(
            text::hex(visual_resource_id as int),
            16,
        ),
        VisualFault::NotAVisual { blob_index } => "ModelPrototype '"@ + name
            + "' visualResourceId resolved to blob "@ + text::decimal(blob_index as int)
            + " (expected 1)"@,
        VisualFault::UnexpectedTable { blob_index } => "'"@ + name + "' resolved to blob "@
            + text::decimal(blob_index as int) + " (expected 1=Visual or 3=Model)"@,
    }
}

impl VisualFault {
    /// The message for the visual with a name.
    pub fn message(self, name: &str) -> (r: String)
        ensures
            r@ == fault_message(self, name@),
    {
        match self {
            VisualFault::NotFound => text::concat("Could not resolve visual: ", name),
            VisualFault::BadRecord => text::concat("Failed to get visual prototype data: ", name),
            VisualFault::NullVisual => text::concat3(
                "ModelPrototype for '",
                name,
                "' has null visualResourceId",
            ),
            VisualFault::UnknownVisual { visual_resource_id } => {
                let id = text::pad_zeros(text::to_hex(visual_resource_id).as_str(), 16);
                let mut out = text::concat3(
                    "visualResourceId 0x",
                    id.as_str(),
                    " from ModelPrototype '",
                );
                out.append(name);
                out.append("' not found in r2p map");
                out
            },
            VisualFault::BadLocation { visual_resource_id } => text::concat(
                "Failed to decode r2p value for visual resource 0x",
                text::pad_zeros(text::to_hex(visual_resource_id).as_str(), 16).as_str(),
            ),
            VisualFault::NotAVisual { blob_index } => {
                let mut out = text::concat3(
                    "ModelPrototype '",
                    name,
                    "' visualResourceId resolved to blob ",
                );
                out.append(text::to_decimal(blob_index as u64).as_str());
                out.append(" (expected 1)");
                out
            },
            VisualFault::UnexpectedTable { blob_index } => {
                let mut out = text::concat3("'", name, "' resolved to blob ");
                out.append(text::to_decimal(blob_index as u64).as_str());
                out.append(" (expected 1=Visual or 3=Model)");
                out
            },
        }
    }
}

/// Whether a resource is listed.
fn has_resource(db: &PrototypeDatabase, self_id: u64) -> (r: bool)
    ensures
        r == lists_resource(db.resources@, self_id),
{
    let mut i: usize = 0;
    while i < db.resources.len()
        invariant
            i <= db.resources.len(),
            forall|j: int| 0 <= j < i ==> (#[trigger] db.resources@[j]).self_id != self_id,
        decreases db.resources.len() - i,
    {
        if db.resources[i].self_id == self_id {
            return true;
        }
        i += 1;
    }
    false
}

/// Finds the visual record that a location leads to, directly or through a model.
pub fn resolve_visual_data(db: &PrototypeDatabase, at: Option<RecordLocation>) -> (r: Result<
    usize,
    VisualFault,
>)
    ensures
        match r {
            Ok(i) => visual_at(*db, at) == Ok::<int, VisualFault>(i as int),
            Err(e) => visual_at(*db, at) == Err::<int, VisualFault>(e),
        },
{
    let loc: RecordLocation = match at {
        Some(loc) => loc,
        None => {
            return Err(VisualFault::NotFound);
        },
    };
    if loc.blob_index == VISUAL_BLOB_INDEX {
        if loc.record_index < db.visual_count {
            return Ok(loc.record_index);
        }
        return Err(VisualFault::BadRecord);
    }
    if loc.blob_index != MODEL_BLOB_INDEX {
        return Err(VisualFault::UnexpectedTable { blob_index: loc.blob_index });
    }
    if loc.record_index >= db.model_visuals.len() {
        return Err(VisualFault::BadRecord);
    }
    let id: u64 = match db.model_visuals[loc.record_index] {
        Some(id) => id,
        None => {
            return Err(VisualFault::BadRecord);
        },
    };
    if id == 0 {
        return Err(VisualFault::NullVisual);
    }
    if !has_resource(db, id) {
        return Err(VisualFault::UnknownVisual { visual_resource_id: id });
    }
    match db.find_location(id) {
        None => Err(VisualFault::BadLocation { visual_resource_id: id }),
        Some(v) => if v.blob_index != VISUAL_BLOB_INDEX {
            Err(VisualFault::NotAVisual { blob_index: v.blob_index })
        } else if v.record_index < db.visual_count {
            Ok(v.record_index)
        } else {
            Err(VisualFault::BadRecord)
        },
    }
}

// ---- Which entry counts -----------------------------------------------------

/// Of several strings with one id the first one counts.
pub proof fn first_strings_count(strings: Seq<StringEntry>, id: u32, i: int, k: int)
    requires
        0 <= i <= k < strings.len(),
        strings[k].id == id,
        forall|j: int| i <= j < k ==> (#[trigger] strings[j]).id != id,
    ensures
        string_from(strings, id, i) == Some(strings[k].text@),
    decreases k - i,
{
    if i < k {
        first_strings_count(strings, id, i + 1, k);
    }
}

/// An id without an entry has no string.
pub proof fn unlisted_ids_have_no_string(strings: Seq<StringEntry>, id: u32, i: int)
    requires
        0 <= i <= strings.len(),
        forall|j: int| i <= j < strings.len() ==> (#[trigger] strings[j]).id != id,
    ensures
        string_from(strings, id, i) is None,
    decreases strings.len() - i,
{
    if i < strings.len() {
        unlisted_ids_have_no_string(strings, id, i + 1);
    }
}

/// Of several paths with one id the first one counts.
pub proof fn first_paths_count(paths: Seq<PathEntry>, self_id: u64, i: int, k: int)
    requires
        0 <= i <= k < paths.len(),
        paths[k].self_id == self_id,
        forall|j: int| i <= j < k ==> (#[trigger] paths[j]).self_id != self_id,
    ensures
        path_index_from(paths, self_id, i) == Some(k),
    decreases k - i,
{
    if i < k {
        first_paths_count(paths, self_id, i + 1, k);
    }
}

/// An id without an entry has no path.
pub proof fn unlisted_ids_have_no_path(paths: Seq<PathEntry>, self_id: u64, i: int)
    requires
        0 <= i <= paths.len(),
        forall|j: int| i <= j < paths.len() ==> (#[trigger] paths[j]).self_id != self_id,
    ensures
        path_index_from(paths, self_id, i) is None,
    decreases paths.len() - i,
{
    if i < paths.len() {
        unlisted_ids_have_no_path(paths, self_id, i + 1);
    }
}

/// Of several resources with one id the first one counts, even if its record cannot be
/// located.
pub proof fn first_resources_count(
    resources: Seq<ResourceEntry>,
    self_id: u64,
    i: int,
    k: int,
)
    requires
        0 <= i <= k < resources.len(),
        resources[k].self_id == self_id,
        forall|j: int| i <= j < k ==> (#[trigger] resources[j]).self_id != self_id,
    ensures
        location_from(resources, self_id, i) == resources[k].location,
        lists_resource(resources, self_id),
    decreases k - i,
{
    if i < k {
        first_resources_count(resources, self_id, i + 1, k);
    }
}

/// A visual stands in the table of visuals, which is the one of index 1; a model, which
/// stands in the one of index 3, leads to the visual of its resource id, and to no other
/// table from there.
pub proof fn models_lead_to_their_visuals(db: PrototypeDatabase, v: int, m: int, id: u64)
    requires
        0 <= v < db.visual_count,
        0 <= m < db.model_visuals@.len(),
        v <= usize::MAX,
        m <= usize::MAX,
        id != 0,
        db.model_visuals@[m] == Some(id),
        lists_resource(db.resources@, id),
        db.location(id) == Some(
            (RecordLocation { blob_index: 1, record_index: v as usize }),
        ),
    ensures
        visual_at(db, Some((RecordLocation { blob_index: 1, record_index: v as usize }))) == Ok::<
            int,
            VisualFault,
        >(v),
        visual_at(db, Some((RecordLocation { blob_index: 3, record_index: m as usize }))) == Ok::<
            int,
            VisualFault,
        >(v),
        visual_at(db, None) is Err,
        forall|b: usize, r: usize|
            b != 1 && b != 3 ==> #[trigger] visual_at(
                db,
                Some((RecordLocation { blob_index: b, record_index: r })),
            ) is Err,
{
}

/// A material is found in the table of index 0, by the record that its id leads to.
pub proof fn materials_are_found_by_their_record(db: PrototypeDatabase, id: u64, r: int)
    requires
        0 <= r < db.materials@.len(),
        r <= usize::MAX,
        db.location(id) == Some((RecordLocation { blob_index: 0, record_index: r as usize })),
    ensures
        db.materials@[r] is Some ==> db.material_record(id) == Some(r),
        db.materials@[r] is None ==> db.material_record(id) is None,
{
}

} // verus!
