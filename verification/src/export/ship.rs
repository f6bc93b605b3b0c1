//! What a ship export contains.
use vstd::prelude::*;

use crate::export::mounts::ResolvedMount;
use crate::export::mounts::TurretModel;
use crate::export::sub_models::OwnedSubModel;
use crate::export::texture_set::TextureSet;
use crate::export::texture_set::TiledScheme;
use crate::game_params::keys::ComponentType;
use crate::text;

verus! {

// ---- Options ----------------------------------------------------------------

/// Which mounted components a ship export contains. Hull parts always belong to it.
#[derive(Debug, Clone, Copy, PartialEq, Eq, Structural)]
pub enum AccessoryMode {
    /// All of them.
    Embed,
    /// The main battery.
    MainOnly,
    /// None.
    Exclude,
}

impl AccessoryMode {
    /// Whether components of a display group are contained.
    pub open spec fn includes(self, display_group: Seq<char>) -> bool {
        match self {
            AccessoryMode::Embed => true,
            AccessoryMode::MainOnly => display_group == "Main Battery"@,
            AccessoryMode::Exclude => false,
        }
    }

    /// Whether components of a display group are contained.
    pub fn includes_group(self, display_group: &str) -> (r: bool)
        ensures
            r == self.includes(display_group@),
    {
        match self {
            AccessoryMode::Embed => true,
            AccessoryMode::MainOnly => text::same(display_group, "Main Battery"),
            AccessoryMode::Exclude => false,
        }
    }
}

/// What one mode contains, the wider ones contain too: nothing, the main battery,
/// everything.
pub proof fn accessory_modes_widen(display_group: Seq<char>)
    ensures
        !AccessoryMode::Exclude.includes(display_group),
        AccessoryMode::MainOnly.includes(display_group) ==> AccessoryMode::Embed.includes(
            display_group,
        ),
        AccessoryMode::Embed.includes(display_group),
{
}

/// Options of a ship export.
#[derive(Debug, Clone)]
pub struct ShipExportOptions {
    /// Level of detail, 0 for the highest.
    pub lod: usize,
    /// Hull upgrade: its full name, or the start of its hull component name up to an
    /// underscore. The first one if not given.
    pub hull: Option<String>,
    /// Whether textures are written.
    pub textures: bool,
    /// Whether the damaged state is written.
    pub damaged: bool,
    /// Whether all render sets are written, whatever level and state they belong to.
    pub all_render_sets: bool,
    pub accessory_mode: AccessoryMode,
    /// Component names that replace those of the hull upgrade.
    pub module_overrides: Vec<(ComponentType, String)>,
    /// Where the placements are written.
    pub placements_json_path: Option<String>,
    /// Where textures are written as files of their own.
    pub textures_dir: Option<String>,
    /// Prefix of the names of texture files.
    pub textures_uri_prefix: String,
    /// Where the raw texture files are written.
    pub raw_dds_dir: Option<String>,
    /// Where the material mappings are written.
    pub material_mappings_json_path: Option<String>,
}

impl Default for ShipExportOptions {
    /// The intact ship in full detail, with all components and textures, in one file.
    fn default() -> (r: ShipExportOptions)
        ensures
            r.lod == 0,
            r.hull is None,
            r.textures,
            !r.damaged,
            !r.all_render_sets,
            r.accessory_mode == AccessoryMode::Embed,
            r.module_overrides@.len() == 0,
            r.placements_json_path is None,
            r.textures_dir is None,
            r.textures_uri_prefix@ == "textures/"@,
            r.raw_dds_dir is None,
            r.material_mappings_json_path is None,
    {
        ShipExportOptions {
            lod: 0,
            hull: None,
            textures: true,
            damaged: false,
            all_render_sets: false,
            accessory_mode: AccessoryMode::Embed,
            module_overrides: Vec::new(),
            placements_json_path: None,
            textures_dir: None,
            textures_uri_prefix: text::copy("textures/"),
            raw_dds_dir: None,
            material_mappings_json_path: None,
        }
    }
}

impl ShipExportOptions {
    /// Whether textures have to be loaded: for the export or as raw files.
    pub fn loads_textures(&self) -> (r: bool)
        ensures
            r == (self.textures || self.raw_dds_dir is Some),
    {
        self.textures || self.raw_dds_dir.is_some()
    }

    /// The textures that an export holds, of those that were loaded. Where they were
    /// loaded to be written as raw files alone, it holds none.
    pub fn embedded_textures(&self, set: TextureSet, tiled: Vec<TiledScheme>) -> (r: (
        TextureSet,
        Vec<TiledScheme>,
    ))
        ensures
            self.textures ==> r.0 == set && r.1 == tiled,
            !self.textures ==> r.0.is_empty() && r.1@.len() == 0,
    {
        if self.textures {
            (set, tiled)
        } else {
            (TextureSet::empty(), Vec::new())
        }
    }
}

// ---- Contents ---------------------------------------------------------------

/// The display group of a component; `Other` if it has none.
pub open spec fn group_of(part: ResolvedMount) -> Seq<char> {
    match text::opt_text(part.display_group) {
        Some(g) => g,
        None => "Other"@,
    }
}

/// The display group of a component.
pub fn mount_group(part: &ResolvedMount) -> (r: String)
    ensures
        r@ == group_of(*part),
{
    match &part.display_group {
        Some(g) => text::copy(g.as_str()),
        None => text::copy("Other"),
    }
}

/// The components among the first `n` that a mode contains.
pub open spec fn embedded(parts: Seq<ResolvedMount>, mode: AccessoryMode, n: int) -> Seq<int>
    decreases n,
{
    if n <= 0 {
        Seq::empty()
    } else {
        let before = embedded(parts, mode, n - 1);
        if mode.includes(group_of(parts[n - 1])) {
            before.push(n - 1)
        } else {
            before
        }
    }
}

/// What a piece of geometry comes from.
#[derive(Debug, Clone, Copy, PartialEq, Eq, Structural)]
pub enum PartSource {
    /// A part of the hull, by index.
    Hull(usize),
    /// A mounted component, by index.
    Mount(usize),
}

/// A piece of geometry of an export.
#[derive(Debug)]
pub struct SubModelPlan {
    pub name: String,
    pub group: String,
    pub source: PartSource,
}

pub struct SubModelPlanView {
    pub name: Seq<char>,
    pub group: Seq<char>,
    pub source: PartSource,
}

impl View for SubModelPlan {
    type V = SubModelPlanView;

    open spec fn view(&self) -> SubModelPlanView {
        SubModelPlanView { name: self.name@, group: self.group@, source: self.source }
    }
}

pub open spec fn plan_views(s: Seq<SubModelPlan>) -> Seq<SubModelPlanView> {
    Seq::new(s.len(), |i: int| s[i]@)
}

/// The pieces of the hull.
pub open spec fn hull_plans(hull_parts: Seq<OwnedSubModel>, n: int) -> Seq<SubModelPlanView> {
    Seq::new(
        n as nat,
        |i: int|
            SubModelPlanView {
                name: hull_parts[i].name@,
                group: "Hull"@,
                source: PartSource::Hull(i as usize),
            },
    )
}

/// The piece of a component: its hardpoint with the name of its model.
pub open spec fn mount_plan(
    parts: Seq<ResolvedMount>,
    models: Seq<TurretModel>,
    i: int,
) -> SubModelPlanView {
    SubModelPlanView {
        name: parts[i].hp_name@ + " ("@ + models[parts[i].turret_model_index as int].sub_model.name@ + ")"@,
        group: group_of(parts[i]),
        source: PartSource::Mount(i as usize),
    }
}

/// The pieces of some components.
pub open spec fn mount_plans(
    parts: Seq<ResolvedMount>,
    models: Seq<TurretModel>,
    at: Seq<int>,
) -> Seq<SubModelPlanView> {
    Seq::new(at.len(), |k: int| mount_plan(parts, models, at[k]))
}

/// The components that a mode contains are among the mounted ones.
pub proof fn embedded_indices_are_in_range(parts: Seq<ResolvedMount>, mode: AccessoryMode, n: int)
    requires
        0 <= n <= parts.len(),
    ensures
        forall|k: int|
            0 <= k < embedded(parts, mode, n).len() ==> 0 <= #[trigger] embedded(
                parts,
                mode,
                n,
            )[k] < n,
    decreases n,
{
    if n > 0 {
        embedded_indices_are_in_range(parts, mode, n - 1);
        let before = embedded(parts, mode, n - 1);
        let now = embedded(parts, mode, n);
        assert forall|k: int| 0 <= k < now.len() implies 0 <= #[trigger] now[k] < n by {
            if k < before.len() {
                assert(now[k] == before[k]);
            }
        }
    }
}

/// Chooses the components that an export contains. Their geometry and their armour are
/// both taken from these.
pub fn embedded_mounts(parts: &Vec<ResolvedMount>, mode: AccessoryMode) -> (r: Vec<usize>)
    ensures
        r@.map_values(|i: usize| i as int) == embedded(parts@, mode, parts@.len() as int),
        forall|k: int| 0 <= k < r@.len() ==> (#[trigger] r@[k]) < parts@.len(),
{
    let mut out: Vec<usize> = Vec::new();
    let mut i: usize = 0;
    assert(out@.map_values(|i: usize| i as int) =~= embedded(parts@, mode, 0));
    while i < parts.len()
        invariant
            i <= parts.len(),
            out@.map_values(|i: usize| i as int) == embedded(parts@, mode, i as int),
            forall|k: int| 0 <= k < out@.len() ==> (#[trigger] out@[k]) < parts@.len(),
        decreases parts.len() - i,
    {
        let ghost before = out@.map_values(|i: usize| i as int);
        if mode.includes_group(mount_group(&parts[i]).as_str()) {
            out.push(i);
            assert(out@.map_values(|i: usize| i as int) =~= before.push(i as int));
        }
        i += 1;
    }
    out
}

/// Lists the pieces of geometry of an export: the hull, and the components that the mode
/// contains.
pub fn plan_sub_models(
    hull_parts: &Vec<OwnedSubModel>,
    parts: &Vec<ResolvedMount>,
    models: &Vec<TurretModel>,
    mode: AccessoryMode,
) -> (r: Vec<SubModelPlan>)
    requires
        forall|i: int|
            0 <= i < parts@.len() ==> (#[trigger] parts@[i]).turret_model_index < models@.len(),
    ensures
        plan_views(r@) == hull_plans(hull_parts@, hull_parts@.len() as int) + mount_plans(
            parts@,
            models@,
            embedded(parts@, mode, parts@.len() as int),
        ),
{
    let mut out: Vec<SubModelPlan> = Vec::new();
    let mut i: usize = 0;
    assert(plan_views(out@) =~= hull_plans(hull_parts@, 0));
    while i < hull_parts.len()
        invariant
            i <= hull_parts.len(),
            plan_views(out@) == hull_plans(hull_parts@, i as int),
        decreases hull_parts.len() - i,
    {
        let ghost before = plan_views(out@);
        let plan = SubModelPlan {
            name: text::copy(hull_parts[i].name.as_str()),
            group: text::copy("Hull"),
            source: PartSource::Hull(i),
        };
        let ghost view = plan@;
        out.push(plan);
        assert(plan_views(out@) =~= before.push(view));
        i += 1;
        assert(plan_views(out@) =~= hull_plans(hull_parts@, i as int));
    }
    let ghost hull = plan_views(out@);
    let chosen = embedded_mounts(parts, mode);
    let ghost at = embedded(parts@, mode, parts@.len() as int);
    let mut k: usize = 0;
    assert(plan_views(out@) =~= hull + mount_plans(parts@, models@, at.take(0)));
    while k < chosen.len()
        invariant
            k <= chosen.len(),
            at == chosen@.map_values(|i: usize| i as int),
            forall|k: int| 0 <= k < chosen@.len() ==> (#[trigger] chosen@[k]) < parts@.len(),
            forall|i: int|
                0 <= i < parts@.len() ==> (#[trigger] parts@[i]).turret_model_index < models@.len(),
            plan_views(out@) == hull + mount_plans(parts@, models@, at.take(k as int)),
        decreases chosen.len() - k,
    {
        let ghost before = plan_views(out@);
        let part = &parts[chosen[k]];
        let mut name = text::concat3(
            part.hp_name.as_str(),
            " (",
            models[part.turret_model_index].sub_model.name.as_str(),
        );
        name.append(")");
        let plan = SubModelPlan {
            name,
            group: mount_group(part),
            source: PartSource::Mount(chosen[k]),
        };
        let ghost view = plan@;
        assert(view == mount_plan(parts@, models@, at[k as int]));
        out.push(plan);
        assert(plan_views(out@) =~= before.push(view));
        k += 1;
        assert(plan_views(out@) =~= hull + mount_plans(parts@, models@, at.take(k as int)));
    }
    assert(at.take(at.len() as int) =~= at);
    out
}

/// The name of a mesh of a component: its own with the hardpoint.
pub fn instance_name(mesh: &str, hp_name: &str) -> (r: String)
    ensures
        r@ == mesh@ + " ["@ + hp_name@ + "]"@,
{
    let mut out = text::concat3(mesh, " [", hp_name);
    out.append("]");
    out
}

/// The most levels of detail that one of the first `n` parts has; 1 if there is no part.
pub open spec fn most_lods(parts: Seq<OwnedSubModel>, n: int) -> nat
    decreases n,
{
    if n <= 0 {
        1
    } else {
        let here = parts[n - 1].visual.lods@.len();
        if n == 1 || here > most_lods(parts, n - 1) {
            here
        } else {
            most_lods(parts, n - 1)
        }
    }
}

/// The number of levels of detail of a hull: the most that a part has, 1 if there is no
/// part.
pub fn hull_lod_count(parts: &Vec<OwnedSubModel>) -> (r: usize)
    ensures
        r == most_lods(parts@, parts@.len() as int),
{
    let mut best: usize = 1;
    let mut i: usize = 0;
    while i < parts.len()
        invariant
            i <= parts.len(),
            best == most_lods(parts@, i as int),
        decreases parts.len() - i,
    {
        let here: usize = parts[i].visual.lods.len();
        if i == 0 || here > best {
            best = here;
        }
        i += 1;
    }
    best
}

/// The components of an export keep their order, and they are exactly those that the mode
/// includes.
pub proof fn exports_keep_the_order_of_components(
    parts: Seq<ResolvedMount>,
    mode: AccessoryMode,
    n: int,
)
    requires
        0 <= n <= parts.len(),
    ensures
        forall|a: int, b: int|
            0 <= a < b < embedded(parts, mode, n).len() ==> #[trigger] embedded(
                parts,
                mode,
                n,
            )[a] < #[trigger] embedded(parts, mode, n)[b],
        forall|i: int|
            0 <= i < n && mode.includes(group_of(#[trigger] parts[i])) ==> embedded(
                parts,
                mode,
                n,
            ).contains(i),
        forall|k: int|
            0 <= k < embedded(parts, mode, n).len() ==> mode.includes(
                group_of(parts[#[trigger] embedded(parts, mode, n)[k]]),
            ),
        mode == AccessoryMode::Embed ==> embedded(parts, mode, n).len() == n,
        mode == AccessoryMode::Exclude ==> embedded(parts, mode, n).len() == 0,
    decreases n,
{
    if n > 0 {
        exports_keep_the_order_of_components(parts, mode, n - 1);
        embedded_indices_are_in_range(parts, mode, n - 1);
        let before = embedded(parts, mode, n - 1);
        let now = embedded(parts, mode, n);
        assert forall|a: int, b: int| 0 <= a < b < now.len() implies #[trigger] now[a]
            < #[trigger] now[b] by {
            assert(now[a] == before[a]);
            if b < before.len() {
                assert(now[b] == before[b]);
            }
        }
        assert forall|k: int| 0 <= k < now.len() implies mode.includes(
            group_of(parts[#[trigger] now[k]]),
        ) by {
            if k < before.len() {
                assert(now[k] == before[k]);
            }
        }
        assert forall|i: int| 0 <= i < n && mode.includes(group_of(#[trigger] parts[i])) implies now.contains(
            i,
        ) by {
            if i < n - 1 {
                let k = choose|k: int| 0 <= k < before.len() && before[k] == i;
                assert(now[k] == i);
            } else {
                assert(now.last() == i);
            }
        }
    }
}

/// The hull has as many levels of detail as that of its parts which has most.
pub proof fn most_levels_are_counted(parts: Seq<OwnedSubModel>, n: int, i: int)
    requires
        0 <= i < n <= parts.len(),
    ensures
        parts[i].visual.lods@.len() <= most_lods(parts, n),
        exists|k: int|
            0 <= k < n && (#[trigger] parts[k]).visual.lods@.len() == most_lods(parts, n),
    decreases n,
{
    if n > 1 {
        let j = if i < n - 1 {
            i
        } else {
            0
        };
        most_levels_are_counted(parts, n - 1, j);
        let k = choose|k: int|
            0 <= k < n - 1 && (#[trigger] parts[k]).visual.lods@.len() == most_lods(parts, n - 1);
        if parts[n - 1].visual.lods@.len() > most_lods(parts, n - 1) {
            assert(parts[n - 1].visual.lods@.len() == most_lods(parts, n));
        } else {
            assert(parts[k].visual.lods@.len() == most_lods(parts, n));
        }
    } else {
        assert(parts[n - 1].visual.lods@.len() == most_lods(parts, n));
    }
}

/// A mode that embeds the main battery alone takes that group and no other; a component
/// without a group belongs to the others.
pub proof fn main_batteries_are_told_by_their_group(part: ResolvedMount, group: Seq<char>)
    ensures
        AccessoryMode::MainOnly.includes(group) <==> group == "Main Battery"@,
        part.display_group is None ==> group_of(part) == "Other"@,
        part.display_group is Some ==> group_of(part) == (part.display_group->0)@,
        part.display_group is None ==> !AccessoryMode::MainOnly.includes(group_of(part)),
{
    reveal_strlit("Other");
    reveal_strlit("Main Battery");
    assert("Other"@.len() != "Main Battery"@.len());
}

/// A mounted piece goes by its hardpoint, with its model in brackets, and shows the mount
/// of its number.
pub proof fn mounted_pieces_are_named_after_their_hardpoints(
    parts: Seq<ResolvedMount>,
    models: Seq<TurretModel>,
    i: int,
)
    requires
        0 <= i < parts.len() <= usize::MAX,
        parts[i].turret_model_index < models.len(),
    ensures
        ({
            let plan = mount_plan(parts, models, i);
            let hp = parts[i].hp_name@;
            let model = models[parts[i].turret_model_index as int].sub_model.name@;
            &&& plan.name.take(hp.len() as int) == hp
            &&& plan.name.skip(hp.len() as int) == " ("@ + model + ")"@
            &&& plan.source == PartSource::Mount(i as usize)
            &&& (parts[i].display_group matches Some(g) ==> plan.group == g@)
            &&& (parts[i].display_group is None ==> plan.group == "Other"@)
        }),
{
    let plan = mount_plan(parts, models, i);
    let hp = parts[i].hp_name@;
    let model = models[parts[i].turret_model_index as int].sub_model.name@;
    assert(plan.name.take(hp.len() as int) =~= hp);
    assert(plan.name.skip(hp.len() as int) =~= " ("@ + model + ")"@);
}

} // verus!
