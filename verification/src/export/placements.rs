//! The manifest of mounted components.
use vstd::prelude::*;

use crate::exact;
use crate::export::mounts;
use crate::export::mounts::ResolvedMount;
use crate::export::mounts::TurretModel;
use crate::export::skel_ext_candidates;
use crate::game_params::types;
use crate::game_params::types::MountSpecies;
use crate::models::skel_ext;
use crate::models::transform;
use crate::models::visual::Matrix4x4;
use crate::text;
use crate::text_laws;

verus! {

// ---- Taxonomy ---------------------------------------------------------------

/// What stands between the root of the gameplay content and the asset.
pub open spec fn below_gameplay(path: Seq<char>) -> Seq<char> {
    if text::has_prefix(path, "content/gameplay/"@) {
        path.skip("content/gameplay/"@.len() as int)
    } else if text::has_prefix(path, "/content/gameplay/"@) {
        path.skip("/content/gameplay/"@.len() as int)
    } else {
        path
    }
}

/// Whether a name is that of a model file.
pub open spec fn is_model_file(name: Seq<char>) -> bool {
    text::has_suffix(name, ".model"@) || text::has_suffix(name, ".geometry"@) || text::has_suffix(
        name,
        ".visual"@,
    )
}

/// The directories of a path without the model file.
pub open spec fn directories(path: Seq<char>) -> Seq<Seq<char>> {
    let all = text::pieces(below_gameplay(path), '/');
    if is_model_file(all.last()) {
        all.drop_last()
    } else {
        all
    }
}

/// The directories that classify an asset: all but its own, unless there is only one. A
/// single directory without a name classifies nothing.
pub open spec fn classes(path: Seq<char>) -> Seq<Seq<char>> {
    let all = directories(path);
    let kept = if all.len() >= 2 {
        all.drop_last()
    } else {
        all
    };
    if kept.len() == 1 && kept[0].len() == 0 {
        Seq::empty()
    } else {
        kept
    }
}

/// Scope, category and subcategory of an asset.
#[derive(Debug)]
pub struct Taxonomy {
    pub scope: Option<String>,
    pub category: Option<String>,
    pub subcategory: Option<String>,
}

pub struct TaxonomyView {
    pub scope: Option<Seq<char>>,
    pub category: Option<Seq<char>>,
    pub subcategory: Option<Seq<char>>,
}

impl View for Taxonomy {
    type V = TaxonomyView;

    open spec fn view(&self) -> TaxonomyView {
        TaxonomyView {
            scope: text::opt_text(self.scope),
            category: text::opt_text(self.category),
            subcategory: text::opt_text(self.subcategory),
        }
    }
}

/// The taxonomy of an asset: the first directory, the second, and the others joined.
pub open spec fn taxonomy(path: Seq<char>) -> TaxonomyView {
    let c = classes(path);
    TaxonomyView {
        scope: if c.len() > 0 {
            Some(c[0])
        } else {
            None
        },
        category: if c.len() > 1 {
            Some(c[1])
        } else {
            None
        },
        subcategory: if c.len() > 2 {
            Some(text::joined(c.skip(2), "/"@))
        } else {
            None
        },
    }
}

/// Classifies an asset by the path of its model. A path of another shape, such as an
/// empty one, has no classes.
pub fn parse_mount_path_taxonomy(model_path: &str) -> (r: Taxonomy)
    ensures
        r@ == taxonomy(model_path@),
{
    let tail = match text::strip_prefix(model_path, "content/gameplay/") {
        Some(t) => t,
        None => match text::strip_prefix(model_path, "/content/gameplay/") {
            Some(t) => t,
            None => text::copy(model_path),
        },
    };
    let mut segs = text::split(tail.as_str(), '/');
    let ghost all = text::pieces(below_gameplay(model_path@), '/');
    let last: usize = segs.len() - 1;
    assert(all.last() == segs@[last as int]@);
    let is_file = text::ends_with(segs[last].as_str(), ".model") || text::ends_with(
        segs[last].as_str(),
        ".geometry",
    ) || text::ends_with(segs[last].as_str(), ".visual");
    if is_file {
        let ghost before = segs@;
        segs.pop();
        assert(text::texts(segs@) =~= all.drop_last());
    }
    assert(text::texts(segs@) == directories(model_path@));
    if segs.len() >= 2 {
        let ghost before = segs@;
        segs.pop();
        assert(text::texts(segs@) =~= text::texts(before).drop_last());
    }
    if segs.len() == 1 && segs[0].as_str().is_empty() {
        segs.pop();
    }
    assert(text::texts(segs@) =~= classes(model_path@));
    let scope = if segs.len() > 0 {
        Some(text::copy(segs[0].as_str()))
    } else {
        None
    };
    let category = if segs.len() > 1 {
        Some(text::copy(segs[1].as_str()))
    } else {
        None
    };
    let subcategory = if segs.len() > 2 {
        Some(text::join_from(&segs, 2, "/"))
    } else {
        None
    };
    Taxonomy { scope, category, subcategory }
}

// ---- Entries ----------------------------------------------------------------

/// Part of the manifest.
#[derive(Debug, Clone, Copy, PartialEq, Eq, Structural)]
pub enum Section {
    Turrets,
    Secondaries,
    Antiair,
    Torpedoes,
    Accessories,
}

/// The part of the manifest for a kind of component.
pub open spec fn section_of(species: Option<MountSpecies>) -> Section {
    match species {
        Some(MountSpecies::Main) => Section::Turrets,
        Some(MountSpecies::Secondary) => Section::Secondaries,
        Some(MountSpecies::AAircraft) => Section::Antiair,
        Some(MountSpecies::Torpedo) => Section::Torpedoes,
        _ => Section::Accessories,
    }
}

/// Chooses the part of the manifest for a kind of component.
pub fn choose_section(species: Option<MountSpecies>) -> (r: Section)
    ensures
        r == section_of(species),
{
    match species {
        Some(MountSpecies::Main) => Section::Turrets,
        Some(MountSpecies::Secondary) => Section::Secondaries,
        Some(MountSpecies::AAircraft) => Section::Antiair,
        Some(MountSpecies::Torpedo) => Section::Torpedoes,
        _ => Section::Accessories,
    }
}

/// An entry of the manifest.
#[derive(Debug)]
pub struct Placement {
    /// Index of the component.
    pub mount: usize,
    pub instance_id: String,
    pub asset_id: String,
    pub hp_name: String,
    pub parent_section: Option<String>,
    pub taxonomy: Taxonomy,
    pub species: Option<&'static str>,
    pub ammo_ids: Vec<String>,
    /// Transform in right-handed axes without a mirror, its translation in metres.
    pub matrix: Matrix4x4,
}

pub struct PlacementView {
    pub mount: int,
    pub instance_id: Seq<char>,
    pub asset_id: Seq<char>,
    pub hp_name: Seq<char>,
    pub parent_section: Option<Seq<char>>,
    pub taxonomy: TaxonomyView,
    pub species: Option<Seq<char>>,
    pub ammo_ids: Seq<Seq<char>>,
    pub matrix: Seq<u32>,
}

impl View for Placement {
    type V = PlacementView;

    open spec fn view(&self) -> PlacementView {
        PlacementView {
            mount: self.mount as int,
            instance_id: self.instance_id@,
            asset_id: self.asset_id@,
            hp_name: self.hp_name@,
            parent_section: text::opt_text(self.parent_section),
            taxonomy: self.taxonomy@,
            species: match self.species {
                Some(s) => Some(s@),
                None => None,
            },
            ammo_ids: text::texts(self.ammo_ids@),
            matrix: self.matrix@,
        }
    }
}

pub open spec fn placement_views(s: Seq<Placement>) -> Seq<PlacementView> {
    Seq::new(s.len(), |i: int| s[i]@)
}

/// The asset of a component.
pub open spec fn asset_of(mounts: Seq<ResolvedMount>, models: Seq<TurretModel>, i: int) -> Seq<char> {
    models[mounts[i].turret_model_index as int].sub_model.name@
}

/// How many of the first `n` components have the given asset.
pub open spec fn count_of(
    mounts: Seq<ResolvedMount>,
    models: Seq<TurretModel>,
    asset: Seq<char>,
    n: int,
) -> int
    decreases n,
{
    if n <= 0 {
        0
    } else {
        count_of(mounts, models, asset, n - 1) + (if asset_of(mounts, models, n - 1) == asset {
            1int
        } else {
            0int
        })
    }
}

/// The id of an instance: ship, asset, and a running number for each asset with at
/// least two digits.
pub open spec fn instance_id(ship: Seq<char>, asset: Seq<char>, k: int) -> Seq<char> {
    ship + "_"@ + asset + "_"@ + text::zero_padded(text::decimal(k), 2)
}

/// The matrix of an entry: the transform without a mirror, in right-handed axes and
/// metres. A component without a transform stands at the origin.
pub open spec fn placed_matrix(m: Option<Matrix4x4>) -> Seq<u32> {
    let raw = match m {
        Some(t) => t@,
        None => mounts::IDENTITY_4X4@,
    };
    skel_ext::in_metres(skel_ext::z_negated(mounts::made_proper(raw)))
}

fn place_matrix(m: Option<Matrix4x4>) -> (r: Matrix4x4)
    ensures
        r@ == placed_matrix(m),
{
    let raw: Matrix4x4 = match m {
        Some(t) => t,
        None => Matrix4x4(mounts::IDENTITY_4X4),
    };
    Matrix4x4(skel_ext::to_metric_glft(mounts::ensure_proper_rotation(raw).0))
}

/// The entry of component `i`.
pub open spec fn placement(
    ship: Seq<char>,
    mounts: Seq<ResolvedMount>,
    models: Seq<TurretModel>,
    i: int,
) -> PlacementView {
    let asset = asset_of(mounts, models, i);
    PlacementView {
        mount: i,
        instance_id: instance_id(ship, asset, count_of(mounts, models, asset, i)),
        asset_id: asset,
        hp_name: mounts[i].hp_name@,
        parent_section: text::opt_text(mounts[i].parent_section),
        taxonomy: taxonomy(mounts[i].model_path@),
        species: match mounts[i].species {
            Some(s) => Some(types::mount_species_name(s)),
            None => None,
        },
        ammo_ids: text::texts(mounts[i].ammo_list@),
        matrix: placed_matrix(mounts[i].transform),
    }
}

/// The entries of the first `n` components that belong to a part of the manifest.
pub open spec fn section_entries(
    ship: Seq<char>,
    mounts: Seq<ResolvedMount>,
    models: Seq<TurretModel>,
    section: Section,
    n: int,
) -> Seq<PlacementView>
    decreases n,
{
    if n <= 0 {
        Seq::empty()
    } else {
        let before = section_entries(ship, mounts, models, section, n - 1);
        if section_of(mounts[n - 1].species) == section {
            before.push(placement(ship, mounts, models, n - 1))
        } else {
            before
        }
    }
}

/// The parts of the manifest.
#[derive(Debug)]
pub struct Placements {
    pub turrets: Vec<Placement>,
    pub secondaries: Vec<Placement>,
    pub antiair: Vec<Placement>,
    pub torpedoes: Vec<Placement>,
    pub accessories: Vec<Placement>,
}

impl Placements {
    /// One part of the manifest.
    pub open spec fn part(&self, section: Section) -> Seq<PlacementView> {
        match section {
            Section::Turrets => placement_views(self.turrets@),
            Section::Secondaries => placement_views(self.secondaries@),
            Section::Antiair => placement_views(self.antiair@),
            Section::Torpedoes => placement_views(self.torpedoes@),
            Section::Accessories => placement_views(self.accessories@),
        }
    }
}

fn count(mounts: &Vec<ResolvedMount>, models: &Vec<TurretModel>, asset: &str, n: usize) -> (r: u64)
    requires
        n <= mounts@.len(),
        n <= u64::MAX,
        forall|i: int|
            0 <= i < mounts@.len() ==> (#[trigger] mounts@[i]).turret_model_index < models@.len(),
    ensures
        r == count_of(mounts@, models@, asset@, n as int),
{
    let mut k: u64 = 0;
    let mut i: usize = 0;
    while i < n
        invariant
            i <= n <= mounts@.len(),
            n <= u64::MAX,
            k <= i,
            k == count_of(mounts@, models@, asset@, i as int),
            forall|i: int|
                0 <= i < mounts@.len() ==> (#[trigger] mounts@[i]).turret_model_index
                    < models@.len(),
        decreases n - i,
    {
        if text::same(models[mounts[i].turret_model_index].sub_model.name.as_str(), asset) {
            k += 1;
        }
        i += 1;
    }
    k
}

fn make_placement(
    ship: &str,
    mounts: &Vec<ResolvedMount>,
    models: &Vec<TurretModel>,
    i: usize,
) -> (r: Placement)
    requires
        i < mounts.len(),
        forall|i: int|
            0 <= i < mounts@.len() ==> (#[trigger] mounts@[i]).turret_model_index < models@.len(),
    ensures
        r@ == placement(ship@, mounts@, models@, i as int),
{
    let mount = &mounts[i];
    let asset = models[mount.turret_model_index].sub_model.name.as_str();
    let k: u64 = count(mounts, models, asset, i);
    let mut id = text::copy(ship);
    id.append("_");
    id.append(asset);
    id.append("_");
    id.append(text::pad_zeros(text::to_decimal(k).as_str(), 2).as_str());
    Placement {
        mount: i,
        instance_id: id,
        asset_id: text::copy(asset),
        hp_name: text::copy(mount.hp_name.as_str()),
        parent_section: text::copy_option(&mount.parent_section),
        taxonomy: parse_mount_path_taxonomy(mount.model_path.as_str()),
        species: match mount.species {
            Some(s) => Some(s.name()),
            None => None,
        },
        ammo_ids: text::copy_list(&mount.ammo_list),
        matrix: place_matrix(mount.transform),
    }
}

fn add_placement(list: &mut Vec<Placement>, p: Placement)
    ensures
        placement_views(final(list)@) == placement_views(old(list)@).push(p@),
{
    let ghost before = list@;
    list.push(p);
    assert(placement_views(list@) =~= placement_views(before).push(p@));
}

/// Writes the entry of every component into its part of the manifest. `ship` is the
/// name that instance ids start with.
pub fn build_placements(ship: &str, mounts: &Vec<ResolvedMount>, models: &Vec<TurretModel>) -> (r:
    Placements)
    requires
        forall|i: int|
            0 <= i < mounts@.len() ==> (#[trigger] mounts@[i]).turret_model_index < models@.len(),
    ensures
        forall|section: Section| #[trigger]
            r.part(section) == section_entries(
                ship@,
                mounts@,
                models@,
                section,
                mounts@.len() as int,
            ),
{
    let mut turrets: Vec<Placement> = Vec::new();
    let mut secondaries: Vec<Placement> = Vec::new();
    let mut antiair: Vec<Placement> = Vec::new();
    let mut torpedoes: Vec<Placement> = Vec::new();
    let mut accessories: Vec<Placement> = Vec::new();
    let mut i: usize = 0;
    assert(placement_views(Seq::empty()) =~= Seq::<PlacementView>::empty());
    while i < mounts.len()
        invariant
            i <= mounts.len(),
            forall|i: int|
                0 <= i < mounts@.len() ==> (#[trigger] mounts@[i]).turret_model_index
                    < models@.len(),
            placement_views(turrets@) == section_entries(
                ship@,
                mounts@,
                models@,
                Section::Turrets,
                i as int,
            ),
            placement_views(secondaries@) == section_entries(
                ship@,
                mounts@,
                models@,
                Section::Secondaries,
                i as int,
            ),
            placement_views(antiair@) == section_entries(
                ship@,
                mounts@,
                models@,
                Section::Antiair,
                i as int,
            ),
            placement_views(torpedoes@) == section_entries(
                ship@,
                mounts@,
                models@,
                Section::Torpedoes,
                i as int,
            ),
            placement_views(accessories@) == section_entries(
                ship@,
                mounts@,
                models@,
                Section::Accessories,
                i as int,
            ),
        decreases mounts.len() - i,
    {
        let p = make_placement(ship, mounts, models, i);
        match choose_section(mounts[i].species) {
            Section::Turrets => add_placement(&mut turrets, p),
            Section::Secondaries => add_placement(&mut secondaries, p),
            Section::Antiair => add_placement(&mut antiair, p),
            Section::Torpedoes => add_placement(&mut torpedoes, p),
            Section::Accessories => add_placement(&mut accessories, p),
        }
        i += 1;
    }
    Placements { turrets, secondaries, antiair, torpedoes, accessories }
}

// ---- Laws -------------------------------------------------------------------

/// Number of entries in all parts of the manifest.
pub open spec fn total_entries(
    ship: Seq<char>,
    mounts: Seq<ResolvedMount>,
    models: Seq<TurretModel>,
    n: int,
) -> nat {
    section_entries(ship, mounts, models, Section::Turrets, n).len() + section_entries(
        ship,
        mounts,
        models,
        Section::Secondaries,
        n,
    ).len() + section_entries(ship, mounts, models, Section::Antiair, n).len() + section_entries(
        ship,
        mounts,
        models,
        Section::Torpedoes,
        n,
    ).len() + section_entries(ship, mounts, models, Section::Accessories, n).len()
}

/// Every component stands in the manifest exactly once.
pub proof fn every_mount_is_placed_once(
    ship: Seq<char>,
    mounts: Seq<ResolvedMount>,
    models: Seq<TurretModel>,
    n: int,
)
    requires
        0 <= n <= mounts.len(),
    ensures
        total_entries(ship, mounts, models, n) == n,
        forall|i: int|
            0 <= i < n ==> #[trigger] section_entries(
                ship,
                mounts,
                models,
                section_of(mounts[i].species),
                n,
            ).contains(placement(ship, mounts, models, i)),
    decreases n,
{
    if n > 0 {
        every_mount_is_placed_once(ship, mounts, models, n - 1);
        assert forall|i: int| 0 <= i < n implies #[trigger] section_entries(
            ship,
            mounts,
            models,
            section_of(mounts[i].species),
            n,
        ).contains(placement(ship, mounts, models, i)) by {
            let section = section_of(mounts[i].species);
            let now = section_entries(ship, mounts, models, section, n);
            let before = section_entries(ship, mounts, models, section, n - 1);
            if i == n - 1 {
                assert(now.last() == placement(ship, mounts, models, i));
            } else {
                assert(before.contains(placement(ship, mounts, models, i)));
                let k = choose|k: int|
                    0 <= k < before.len() && before[k] == placement(ship, mounts, models, i);
                assert(now[k] == before[k]);
            }
        }
    }
}

proof fn counts_grow(mounts: Seq<ResolvedMount>, models: Seq<TurretModel>, asset: Seq<char>, i: int, j: int)
    requires
        0 <= i <= j,
    ensures
        0 <= count_of(mounts, models, asset, i) <= count_of(mounts, models, asset, j),
    decreases j,
{
    if j > 0 {
        if i < j {
            counts_grow(mounts, models, asset, i, j - 1);
        } else {
            counts_grow(mounts, models, asset, i - 1, j - 1);
        }
    }
}

/// Digits of a number hold no underscore, and there is at least one.
proof fn digits_are_no_underscores(n: nat)
    ensures
        text::decimal(n as int).len() > 0,
        forall|i: int| 0 <= i < text::decimal(n as int).len() ==> text::decimal(n as int)[i] != '_',
    decreases n,
{
    if n >= 10 {
        digits_are_no_underscores(n / 10);
    }
}

proof fn digits_are_distinct(a: int, b: int)
    requires
        0 <= a < 10,
        0 <= b < 10,
        text::digit(a, true) == text::digit(b, true),
    ensures
        a == b,
{
}

/// Different numbers have different decimal forms, and a form starts with a zero only
/// for zero itself.
proof fn decimals_are_distinct(a: nat, b: nat)
    requires
        text::decimal(a as int) == text::decimal(b as int),
    ensures
        a == b,
    decreases a + b,
{
    let x = text::decimal(a as int);
    let y = text::decimal(b as int);
    digits_are_no_underscores(a);
    digits_are_no_underscores(b);
    if a >= 10 {
        digits_are_no_underscores(a / 10);
    }
    if b >= 10 {
        digits_are_no_underscores(b / 10);
    }
    assert((a >= 10) == (b >= 10));
    if a >= 10 {
        assert(x.last() == y.last());
        digits_are_distinct((a % 10) as int, (b % 10) as int);
        assert(x.drop_last() =~= text::decimal((a / 10) as int));
        assert(y.drop_last() =~= text::decimal((b / 10) as int));
        decimals_are_distinct(a / 10, b / 10);
    } else {
        assert(x[0] == y[0]);
        digits_are_distinct(a as int, b as int);
    }
}

proof fn padded_decimals_are_distinct(a: nat, b: nat)
    requires
        text::zero_padded(text::decimal(a as int), 2) == text::zero_padded(
            text::decimal(b as int),
            2,
        ),
    ensures
        a == b,
{
    let x = text::decimal(a as int);
    let y = text::decimal(b as int);
    digits_are_no_underscores(a);
    digits_are_no_underscores(b);
    let p = text::zero_padded(x, 2);
    let q = text::zero_padded(y, 2);
    if x.len() < 2 {
        assert(p.len() == 2 && p[0] == '0' && p[1] == x[0]);
        one_digit_is_small(a);
        if y.len() < 2 {
            assert(q[1] == y[0]);
            assert(x =~= y);
            decimals_are_distinct(a, b);
        } else {
            assert(q == y);
            leading_digit_is_no_zero(b);
        }
    } else {
        if y.len() < 2 {
            assert(q.len() == 2 && q[0] == '0' && q[1] == y[0]);
            leading_digit_is_no_zero(a);
        } else {
            decimals_are_distinct(a, b);
        }
    }
}

proof fn one_digit_is_small(n: nat)
    requires
        text::decimal(n as int).len() < 2,
    ensures
        n < 10,
{
    if n >= 10 {
        digits_are_no_underscores(n / 10);
    }
}

proof fn leading_digit_is_no_zero(n: nat)
    requires
        text::decimal(n as int).len() >= 2,
    ensures
        text::decimal(n as int)[0] != '0',
    decreases n,
{
    assert(n >= 10);
    let rest = text::decimal((n / 10) as int);
    digits_are_no_underscores(n / 10);
    assert(text::decimal(n as int)[0] == rest[0]);
    if rest.len() >= 2 {
        leading_digit_is_no_zero(n / 10);
    } else {
        one_digit_is_small(n / 10);
        assert(rest[0] == text::digit((n / 10) as int, true));
    }
}

/// Instance ids of one ship tell asset and number: equal ids mean both are equal.
proof fn instance_ids_split(ship: Seq<char>, a: Seq<char>, j: nat, b: Seq<char>, k: nat)
    requires
        instance_id(ship, a, j as int) == instance_id(ship, b, k as int),
    ensures
        a == b,
        j == k,
{
    reveal_strlit("_");
    let p = text::zero_padded(text::decimal(j as int), 2);
    let q = text::zero_padded(text::decimal(k as int), 2);
    digits_are_no_underscores(j);
    digits_are_no_underscores(k);
    let s = instance_id(ship, a, j as int);
    let t = instance_id(ship, b, k as int);
    let at = ship.len() + 1 + a.len();
    let bt = ship.len() + 1 + b.len();
    let head = ship + "_"@ + a + "_"@;
    let other = ship + "_"@ + b + "_"@;
    assert(head.len() == at + 1 && other.len() == bt + 1);
    assert(s == head + p && t == other + q);
    assert(s[at as int] == '_');
    assert(t[bt as int] == '_');
    assert forall|i: int| 0 <= i < p.len() implies p[i] != '_' by {}
    assert forall|i: int| 0 <= i < q.len() implies q[i] != '_' by {}
    assert(s.len() == at + 1 + p.len() && t.len() == bt + 1 + q.len());
    if at < bt {
        assert(s[bt as int] == p[bt - at - 1]) by {
            assert((head + p)[bt as int] == p[bt - head.len()]);
        }
    }
    if bt < at {
        assert(t[at as int] == q[at - bt - 1]) by {
            assert((other + q)[at as int] == q[at - other.len()]);
        }
    }
    assert(p =~= s.skip(at as int + 1));
    assert(q =~= t.skip(bt as int + 1));
    assert(a =~= s.subrange(ship.len() as int + 1, at as int));
    assert(b =~= t.subrange(ship.len() as int + 1, bt as int));
    padded_decimals_are_distinct(j, k);
}

/// No two components of a ship have the same instance id.
pub proof fn instance_ids_are_distinct(
    ship: Seq<char>,
    mounts: Seq<ResolvedMount>,
    models: Seq<TurretModel>,
    i: int,
    j: int,
)
    requires
        0 <= i < j < mounts.len(),
    ensures
        placement(ship, mounts, models, i).instance_id != placement(
            ship,
            mounts,
            models,
            j,
        ).instance_id,
{
    let a = asset_of(mounts, models, i);
    let b = asset_of(mounts, models, j);
    let m = count_of(mounts, models, a, i);
    let n = count_of(mounts, models, b, j);
    counts_grow(mounts, models, a, 0, i);
    counts_grow(mounts, models, b, 0, j);
    if instance_id(ship, a, m) == instance_id(ship, b, n) {
        instance_ids_split(ship, a, m as nat, b, n as nat);
        counts_grow(mounts, models, a, i + 1, j);
        assert(count_of(mounts, models, a, i + 1) == m + 1);
    }
}

// ---- What placements say ----------------------------------------------------

/// A mount whose transform does not mirror is placed in metres, with its depth the other
/// way; one without a transform stands at the origin.
pub proof fn mounts_are_placed_in_metres(m: Matrix4x4, n: Seq<int>)
    requires
        transform::cells_are(m@, n),
        transform::within(n, 0x4000),
        transform::is_proper(m@),
    ensures
        exact::stands_for(placed_matrix(Some(m))[12], 15 * n[12], 0),
        exact::stands_for(placed_matrix(Some(m))[13], 15 * n[13], 0),
        exact::stands_for(placed_matrix(Some(m))[14], -15 * n[14], 0),
{
    skel_ext_candidates::metres_mirror_depth(m@, n);
}

/// Guns, secondary guns, anti-aircraft guns and torpedo tubes have sections of their own;
/// everything else is an accessory.
pub proof fn sections_are_those_of_the_species(species: Option<MountSpecies>)
    ensures
        section_of(species) == Section::Turrets <==> species == Some(MountSpecies::Main),
        section_of(species) == Section::Secondaries <==> species == Some(MountSpecies::Secondary),
        section_of(species) == Section::Antiair <==> species == Some(MountSpecies::AAircraft),
        section_of(species) == Section::Torpedoes <==> species == Some(MountSpecies::Torpedo),
{
}

/// The directories of a model below the gameplay directory say what it is: scope, category
/// and what lies below, but for its own directory and file.
#[verifier::rlimit(50)]
pub proof fn directories_say_what_a_model_is(
    scope: Seq<char>,
    category: Seq<char>,
    rest: Seq<Seq<char>>,
    own: Seq<char>,
    file: Seq<char>,
    slash: bool,
)
    requires
        !scope.contains('/'),
        !category.contains('/'),
        !own.contains('/'),
        !file.contains('/'),
        is_model_file(file),
        forall|i: int| 0 <= i < rest.len() ==> !(#[trigger] rest[i]).contains('/'),
    ensures
        ({
            let path = text::joined(seq![scope, category] + rest + seq![own, file], "/"@);
            let full = (if slash {
                "/content/gameplay/"@
            } else {
                "content/gameplay/"@
            }) + path;
            &&& taxonomy(full).scope == Some(scope)
            &&& taxonomy(full).category == Some(category)
            &&& taxonomy(full).subcategory == if rest.len() == 0 {
                None
            } else {
                Some(text::joined(rest, "/"@))
            }
        }),
{
    let parts = seq![scope, category] + rest + seq![own, file];
    let path = text::joined(parts, "/"@);
    let root = if slash {
        "/content/gameplay/"@
    } else {
        "content/gameplay/"@
    };
    let full = root + path;
    reveal_strlit("/");
    reveal_strlit("content/gameplay/");
    reveal_strlit("/content/gameplay/");
    assert("/"@ =~= seq!['/']);
    text_laws::prefixes_are_continued(path, root);
    if slash {
        assert(full[0] == '/');
        assert(!text::has_prefix(full, "content/gameplay/"@)) by {
            if text::has_prefix(full, "content/gameplay/"@) {
                assert(full.subrange(0, "content/gameplay/"@.len() as int)[0] == full[0]);
            }
        }
    }
    assert(full.skip(root.len() as int) =~= path);
    assert(below_gameplay(full) == path);
    assert forall|i: int| 0 <= i < parts.len() implies !(#[trigger] parts[i]).contains('/') by {
        if 2 <= i < 2 + rest.len() {
            assert(parts[i] == rest[i - 2]);
        }
    }
    text_laws::joined_texts_are_the_pieces(parts, '/');
    assert(parts.last() == file);
    let c = classes(full);
    assert(directories(full) =~= seq![scope, category] + rest + seq![own]);
    assert(c =~= seq![scope, category] + rest);
    assert(c.skip(2) =~= rest);
}

/// The placements of a section keep the order of the mounts, and each is numbered among
/// those of its own model.
pub proof fn sections_keep_the_order_of_mounts(
    ship: Seq<char>,
    mounts: Seq<ResolvedMount>,
    models: Seq<TurretModel>,
    section: Section,
    n: int,
)
    requires
        0 <= n <= mounts.len(),
    ensures
        forall|k: int|
            0 <= k < section_entries(ship, mounts, models, section, n).len() ==> {
                let e = #[trigger] section_entries(ship, mounts, models, section, n)[k];
                &&& 0 <= e.mount < n
                &&& section_of(mounts[e.mount].species) == section
                &&& e == placement(ship, mounts, models, e.mount)
            },
        forall|j: int, k: int|
            0 <= j < k < section_entries(ship, mounts, models, section, n).len() ==> (
            #[trigger] section_entries(ship, mounts, models, section, n)[j]).mount < (
            #[trigger] section_entries(ship, mounts, models, section, n)[k]).mount,
    decreases n,
{
    if n > 0 {
        sections_keep_the_order_of_mounts(ship, mounts, models, section, n - 1);
        let before = section_entries(ship, mounts, models, section, n - 1);
        let now = section_entries(ship, mounts, models, section, n);
        assert forall|k: int| 0 <= k < now.len() implies {
            let e = #[trigger] now[k];
            &&& 0 <= e.mount < n
            &&& section_of(mounts[e.mount].species) == section
            &&& e == placement(ship, mounts, models, e.mount)
        } by {
            if k < before.len() {
                assert(now[k] == before[k]);
            }
        }
        assert forall|j: int, k: int| 0 <= j < k < now.len() implies (#[trigger] now[j]).mount < (
        #[trigger] now[k]).mount by {
            assert(now[j] == before[j]);
            if k < before.len() {
                assert(now[k] == before[k]);
            }
        }
    }
}

/// A placement carries what its mount says: hardpoint, section, ammunition, and the name of
/// the model that is mounted; the first of a model has the number zero.
pub proof fn placements_carry_their_mounts(
    ship: Seq<char>,
    mounts: Seq<ResolvedMount>,
    models: Seq<TurretModel>,
    i: int,
)
    requires
        0 <= i < mounts.len(),
        mounts[i].turret_model_index < models.len(),
    ensures
        ({
            let p = placement(ship, mounts, models, i);
            let asset = models[mounts[i].turret_model_index as int].sub_model.name@;
            &&& p.mount == i
            &&& p.asset_id == asset
            &&& p.hp_name == mounts[i].hp_name@
            &&& p.parent_section == text::opt_text(mounts[i].parent_section)
            &&& p.ammo_ids == text::texts(mounts[i].ammo_list@)
            &&& p.taxonomy == taxonomy(mounts[i].model_path@)
            &&& (mounts[i].species matches Some(s) ==> p.species == Some(
                types::mount_species_name(s),
            ))
            &&& (forall|j: int|
                0 <= j < i ==> models[(#[trigger] mounts[j]).turret_model_index as int].sub_model.name@
                    != asset) ==> p.instance_id == ship + "_"@ + asset + "_00"@
        }),
{
    let asset = asset_of(mounts, models, i);
    if forall|j: int|
        0 <= j < i ==> models[(#[trigger] mounts[j]).turret_model_index as int].sub_model.name@
            != asset {
        none_are_counted(mounts, models, asset, i);
        reveal_strlit("_");
        reveal_strlit("_00");
        reveal_with_fuel(text::digits, 2);
        let two = text::zero_padded(text::decimal(0), 2);
        assert(two =~= seq!['0', '0']);
        assert("_"@ + two =~= "_00"@);
        assert(ship + "_"@ + asset + "_"@ + two =~= ship + "_"@ + asset + "_00"@);
    }
}

proof fn none_are_counted(
    mounts: Seq<ResolvedMount>,
    models: Seq<TurretModel>,
    asset: Seq<char>,
    n: int,
)
    requires
        0 <= n <= mounts.len(),
        forall|j: int|
            0 <= j < n ==> models[(#[trigger] mounts[j]).turret_model_index as int].sub_model.name@
                != asset,
    ensures
        count_of(mounts, models, asset, n) == 0,
    decreases n,
{
    if n > 0 {
        none_are_counted(mounts, models, asset, n - 1);
        assert(mounts[n - 1] == mounts[n - 1]);
    }
}

} // verus!
