//! Mounted components: which model stands at which hardpoint, and how.
use vstd::prelude::*;
use vstd::arithmetic::mul::*;

use crate::arith;
use crate::exact;
use crate::export::barrels;
use crate::export::barrels::BarrelPitch;
use crate::export::sub_models::OwnedSubModel;
use crate::game_params::types;
use crate::game_params::types::ArmorPlate;
use crate::game_params::types::MountSpecies;
use crate::models::assets_bin::PrototypeDatabase;
use crate::models::transform;
use crate::models::visual::Matrix4x4;
use crate::single;
use crate::slots;
use crate::slots::NamedSlot;
use crate::text;
use crate::text_laws;

verus! {

// ---- Matrices ---------------------------------------------------------------

/// The matrix that changes nothing.
pub const IDENTITY_4X4: [u32; 16] = [
    0x3F80_0000, 0, 0, 0, 0, 0x3F80_0000, 0, 0, 0, 0, 0x3F80_0000, 0, 0, 0, 0, 0x3F80_0000,
];

/// The inverse of the rotation of a rigid transform: its transpose, without
/// translation.
pub open spec fn rotation_inverted(m: Seq<u32>) -> Seq<u32> {
    Seq::new(
        16,
        |i: int|
            if i % 4 < 3 && i / 4 < 3 {
                m[i % 4 * 4 + i / 4]
            } else if i == 15 {
                single::ONE_BITS
            } else {
                0u32
            },
    )
}

/// Inverts the rotation of a rigid transform and drops its translation.
pub fn mat4_rotation_inverse(m: &Matrix4x4) -> (r: Matrix4x4)
    ensures
        r@ == rotation_inverted(m@),
{
    let a: [u32; 16] = [
        m.0[0],
        m.0[4],
        m.0[8],
        0,
        m.0[1],
        m.0[5],
        m.0[9],
        0,
        m.0[2],
        m.0[6],
        m.0[10],
        0,
        0,
        0,
        0,
        single::ONE_BITS,
    ];
    assert(a@ =~= rotation_inverted(m@));
    Matrix4x4(a)
}

/// The translation of a transform alone.
pub open spec fn translation(m: Seq<u32>) -> Seq<u32> {
    IDENTITY_4X4@.update(12, m[12]).update(13, m[13]).update(14, m[14])
}

/// Keeps only the translation of a transform.
pub fn translation_only(m: &Matrix4x4) -> (r: Matrix4x4)
    ensures
        r@ == translation(m@),
{
    let mut a: [u32; 16] = IDENTITY_4X4;
    a[12] = m.0[12];
    a[13] = m.0[13];
    a[14] = m.0[14];
    Matrix4x4(a)
}

/// A matrix with the first column of its rotation negated.
pub open spec fn first_column_negated(m: Seq<u32>) -> Seq<u32> {
    m.update(0, single::negated(m[0])).update(1, single::negated(m[1])).update(
        2,
        single::negated(m[2]),
    )
}

/// A transform that does not mirror: with the first column negated, unless it does not
/// mirror already.
pub open spec fn made_proper(m: Seq<u32>) -> Seq<u32> {
    if transform::is_proper(m) {
        m
    } else {
        first_column_negated(m)
    }
}

/// Makes a transform that mirrors into one that does not.
pub fn ensure_proper_rotation(m: Matrix4x4) -> (r: Matrix4x4)
    ensures
        r@ == made_proper(m@),
{
    if transform::has_no_mirror(&m) {
        return m;
    }
    let mut a: [u32; 16] = m.0;
    a[0] = single::negate(a[0]);
    a[1] = single::negate(a[1]);
    a[2] = single::negate(a[2]);
    assert(a@ =~= first_column_negated(m@));
    Matrix4x4(a)
}

/// Inverting a rotation twice gives it back.
pub proof fn rotation_inverse_is_an_involution(m: Seq<u32>)
    requires
        m.len() == 16,
    ensures
        forall|i: int|
            0 <= i < 12 && i % 4 < 3 ==> #[trigger] rotation_inverted(rotation_inverted(m))[i]
                == m[i],
{
    assert forall|i: int| 0 <= i < 12 && i % 4 < 3 implies #[trigger] rotation_inverted(
        rotation_inverted(m),
    )[i] == m[i] by {
        let j = i % 4 * 4 + i / 4;
        assert(j % 4 == i / 4 && j / 4 == i % 4);
        assert(rotation_inverted(rotation_inverted(m))[i] == rotation_inverted(m)[j]);
    }
}

/// Where the determinant of a transform is a number, the transform that is made of it does
/// not mirror, and stays as it is from then on.
pub proof fn proper_rotations_do_not_mirror(m: Seq<u32>)
    requires
        m.len() == 16,
        !single::is_nan(transform::determinant(m)),
    ensures
        transform::is_proper(made_proper(m)),
        made_proper(made_proper(m)) == made_proper(m),
{
    if !transform::is_proper(m) {
        let n = first_column_negated(m);
        arith::negations_are_opposite(m[0]);
        arith::negations_are_opposite(m[1]);
        arith::negations_are_opposite(m[2]);
        transform::negated_columns_negate_the_determinant(m, n);
        arith::opposites_of_negative_numbers(transform::determinant(m), transform::determinant(n));
    }
}

/// Turning a mirror into a rotation keeps the translation and the other two columns.
pub proof fn proper_rotation_keeps_the_rest(m: Seq<u32>, i: int)
    requires
        m.len() == 16,
        3 <= i < 16,
    ensures
        made_proper(m)[i] == m[i],
{
}

// ---- Hardpoints -------------------------------------------------------------

/// A node of a hull part with its composed transform, where it has one.
#[derive(Debug)]
pub struct NodePose {
    pub name_id: u32,
    pub pose: Option<Matrix4x4>,
}

/// A part of the hull.
#[derive(Debug)]
pub struct HullPart {
    pub name: String,
    pub nodes: Vec<NodePose>,
}

/// Where a hardpoint of the hull stands.
#[derive(Debug)]
pub struct HullPose {
    pub section: String,
    pub transform: Matrix4x4,
}

pub struct HullPoseView {
    pub section: Seq<char>,
    pub transform: Seq<u32>,
}

impl View for HullPose {
    type V = HullPoseView;

    open spec fn view(&self) -> HullPoseView {
        HullPoseView { section: self.section@, transform: self.transform@ }
    }
}

/// The section of the hull that a part is: what its name adds to the name of the
/// model, or `Full`.
pub open spec fn section_name(part: Seq<char>, model_dir: Seq<char>) -> Seq<char> {
    let prefix = model_dir + "_"@;
    if text::has_prefix(part, prefix) {
        part.skip(prefix.len() as int)
    } else {
        "Full"@
    }
}

fn find_section(part: &str, model_dir: &str) -> (r: String)
    ensures
        r@ == section_name(part@, model_dir@),
{
    match text::strip_prefix(part, text::concat(model_dir, "_").as_str()) {
        Some(t) => t,
        None => text::copy("Full"),
    }
}

/// Whether a node is a hardpoint: its name is known and starts with `HP_`, and it has
/// a transform.
pub open spec fn is_hardpoint(db: PrototypeDatabase, node: NodePose) -> bool {
    node.pose is Some && match db.string(node.name_id) {
        Some(name) => text::has_prefix(name, "HP_"@),
        None => false,
    }
}

/// The table of hardpoints after the first `n` nodes of a part.
pub open spec fn with_nodes(
    table: Seq<(Seq<char>, HullPoseView)>,
    db: PrototypeDatabase,
    nodes: Seq<NodePose>,
    section: Seq<char>,
    n: int,
) -> Seq<(Seq<char>, HullPoseView)>
    decreases n,
{
    if n <= 0 {
        table
    } else {
        let before = with_nodes(table, db, nodes, section, n - 1);
        if is_hardpoint(db, nodes[n - 1]) {
            slots::bound(
                before,
                db.string(nodes[n - 1].name_id)->0,
                HullPoseView { section, transform: (nodes[n - 1].pose->0)@ },
            )
        } else {
            before
        }
    }
}

/// The hardpoints of the first `n` parts of a hull. A later one replaces an earlier one
/// of the same name.
pub open spec fn hull_hardpoints(
    db: PrototypeDatabase,
    parts: Seq<HullPart>,
    model_dir: Seq<char>,
    n: int,
) -> Seq<(Seq<char>, HullPoseView)>
    decreases n,
{
    if n <= 0 {
        Seq::empty()
    } else {
        let part = parts[n - 1];
        with_nodes(
            hull_hardpoints(db, parts, model_dir, n - 1),
            db,
            part.nodes@,
            section_name(part.name@, model_dir),
            part.nodes@.len() as int,
        )
    }
}

/// Collects the hardpoints of a hull with the section that each belongs to.
pub fn collect_hardpoints(db: &PrototypeDatabase, parts: &Vec<HullPart>, model_dir: &str) -> (r: Vec<
    NamedSlot<HullPose>,
>)
    ensures
        slots::slots(r@) == hull_hardpoints(*db, parts@, model_dir@, parts@.len() as int),
{
    let mut table: Vec<NamedSlot<HullPose>> = Vec::new();
    let mut p: usize = 0;
    assert(slots::slots(table@) =~= hull_hardpoints(*db, parts@, model_dir@, 0));
    while p < parts.len()
        invariant
            p <= parts.len(),
            slots::slots(table@) == hull_hardpoints(*db, parts@, model_dir@, p as int),
        decreases parts.len() - p,
    {
        let section = find_section(parts[p].name.as_str(), model_dir);
        let nodes = &parts[p].nodes;
        let ghost start = slots::slots(table@);
        let mut i: usize = 0;
        while i < nodes.len()
            invariant
                i <= nodes.len(),
                slots::slots(table@) == with_nodes(start, *db, nodes@, section@, i as int),
            decreases nodes.len() - i,
        {
            if let Some(pose) = nodes[i].pose {
                if let Some(name) = db.get_string_by_id(nodes[i].name_id) {
                    if text::starts_with(name.as_str(), "HP_") {
                        let value = HullPose {
                            section: text::copy(section.as_str()),
                            transform: pose,
                        };
                        slots::bind(&mut table, name, value);
                    }
                }
            }
            i += 1;
        }
        p += 1;
    }
    table
}

/// No two hardpoints of a hull have the same name.
pub proof fn hardpoint_names_are_distinct(
    db: PrototypeDatabase,
    parts: Seq<HullPart>,
    model_dir: Seq<char>,
    n: int,
)
    requires
        n <= parts.len(),
    ensures
        slots::has_distinct_names(hull_hardpoints(db, parts, model_dir, n)),
    decreases n,
{
    if n > 0 {
        hardpoint_names_are_distinct(db, parts, model_dir, n - 1);
        let part = parts[n - 1];
        nodes_keep_names_distinct(
            hull_hardpoints(db, parts, model_dir, n - 1),
            db,
            part.nodes@,
            section_name(part.name@, model_dir),
            part.nodes@.len() as int,
        );
    }
}

proof fn nodes_keep_names_distinct(
    table: Seq<(Seq<char>, HullPoseView)>,
    db: PrototypeDatabase,
    nodes: Seq<NodePose>,
    section: Seq<char>,
    n: int,
)
    requires
        slots::has_distinct_names(table),
    ensures
        slots::has_distinct_names(with_nodes(table, db, nodes, section, n)),
    decreases n,
{
    if n > 0 {
        nodes_keep_names_distinct(table, db, nodes, section, n - 1);
        if is_hardpoint(db, nodes[n - 1]) {
            slots::bound_names_are_distinct(
                with_nodes(table, db, nodes, section, n - 1),
                db.string(nodes[n - 1].name_id)->0,
                HullPoseView { section, transform: (nodes[n - 1].pose->0)@ },
            );
        }
    }
}

// ---- Mount points -----------------------------------------------------------

/// A place where a component is mounted.
#[derive(Debug)]
pub struct MountPoint {
    pub hp_name: String,
    pub model_path: String,
    pub species: Option<MountSpecies>,
    /// Display group of its kind, if it has one.
    pub display_group: Option<String>,
    pub ammo_list: Vec<String>,
    /// Least elevation in degrees when the component points ahead.
    pub min_pitch: u32,
    /// Sine and cosine of the depression that is opposite to it.
    pub pitch_sin: u32,
    pub pitch_cos: u32,
    /// The armour of the component, where it has its own.
    pub mount_armor: Option<Vec<ArmorPlate>>,
}

/// A loaded component model.
#[derive(Debug)]
pub struct TurretModel {
    pub model_path: String,
    pub sub_model: OwnedSubModel,
    /// Composed transforms of its nodes.
    pub hardpoints: Vec<NamedSlot<Matrix4x4>>,
    /// Local transform of its `Rotate_Y_BlendBone`.
    pub blend_bone: Option<Matrix4x4>,
}

/// Whether a path stands before mount point `n`.
pub open spec fn uses_path(mounts: Seq<MountPoint>, path: Seq<char>, n: int) -> bool {
    exists|i: int| 0 <= i < n && (#[trigger] mounts[i]).model_path@ == path
}

/// The model paths of the first `n` mount points, each once.
pub open spec fn model_paths(mounts: Seq<MountPoint>, n: int) -> Seq<Seq<char>>
    decreases n,
{
    if n <= 0 {
        Seq::empty()
    } else {
        let before = model_paths(mounts, n - 1);
        let path = mounts[n - 1].model_path@;
        if path.len() == 0 || uses_path(mounts, path, n - 1) {
            before
        } else {
            before.push(path)
        }
    }
}

/// Lists the models to load: each path once, in the order of the mount points.
pub fn unique_model_paths(mounts: &Vec<MountPoint>) -> (r: Vec<String>)
    ensures
        text::texts(r@) == model_paths(mounts@, mounts@.len() as int),
{
    let mut out: Vec<String> = Vec::new();
    let mut i: usize = 0;
    assert(text::texts(out@) =~= model_paths(mounts@, 0));
    while i < mounts.len()
        invariant
            i <= mounts.len(),
            text::texts(out@) == model_paths(mounts@, i as int),
            forall|p: Seq<char>|
                p.len() > 0 ==> (#[trigger] text::texts(out@).contains(p) <==> uses_path(
                    mounts@,
                    p,
                    i as int,
                )),
        decreases mounts.len() - i,
    {
        let path = mounts[i].model_path.as_str();
        let ghost before = text::texts(out@);
        if !path.is_empty() && !text::contains_text(&out, path) {
            out.push(text::copy(path));
            assert(text::texts(out@) =~= before.push(path@));
        }
        proof {
            let now = text::texts(out@);
            assert forall|p: Seq<char>| p.len() > 0 implies (#[trigger] now.contains(p)
                <==> uses_path(mounts@, p, i + 1)) by {
                if now.contains(p) {
                    let k = choose|k: int| 0 <= k < now.len() && now[k] == p;
                    if k < before.len() {
                        assert(before[k] == p);
                        assert(before.contains(p));
                    } else {
                        assert(mounts@[i as int].model_path@ == p);
                    }
                }
                if uses_path(mounts@, p, i + 1) {
                    if uses_path(mounts@, p, i as int) {
                        assert(before.contains(p));
                        let k = choose|k: int| 0 <= k < before.len() && before[k] == p;
                        assert(now[k] == p);
                    } else {
                        assert(path@ == p);
                        assert(!before.contains(p));
                        assert(now.last() == p);
                    }
                }
            }
        }
        i += 1;
    }
    out
}

/// Every model is listed once: the listed paths differ, none is empty, and every path of
/// a mount point is among them unless it is empty.
pub proof fn model_paths_are_distinct_and_complete(mounts: Seq<MountPoint>, n: int)
    requires
        0 <= n <= mounts.len(),
    ensures
        model_paths(mounts, n).no_duplicates(),
        forall|p: Seq<char>| #[trigger]
            model_paths(mounts, n).contains(p) <==> p.len() > 0 && uses_path(mounts, p, n),
    decreases n,
{
    if n > 0 {
        model_paths_are_distinct_and_complete(mounts, n - 1);
        let before = model_paths(mounts, n - 1);
        let now = model_paths(mounts, n);
        let path = mounts[n - 1].model_path@;
        assert forall|p: Seq<char>| #[trigger] now.contains(p) <==> p.len() > 0 && uses_path(
            mounts,
            p,
            n,
        ) by {
            if now.contains(p) {
                let k = choose|k: int| 0 <= k < now.len() && now[k] == p;
                if k < before.len() {
                    assert(before[k] == p);
                    assert(before.contains(p));
                } else {
                    assert(mounts[n - 1].model_path@ == p);
                }
            }
            if p.len() > 0 && uses_path(mounts, p, n) {
                if uses_path(mounts, p, n - 1) {
                    assert(before.contains(p));
                    let k = choose|k: int| 0 <= k < before.len() && before[k] == p;
                    assert(now[k] == p);
                } else {
                    assert(path == p);
                    assert(now.last() == p);
                }
            }
        }
        assert(!before.contains(path) || uses_path(mounts, path, n - 1));
    }
}

/// Index of the first model with the given path, from `i` on.
pub open spec fn model_from(models: Seq<TurretModel>, path: Seq<char>, i: int) -> Option<int>
    decreases models.len() - i,
{
    if i < 0 || i >= models.len() {
        None
    } else if models[i].model_path@ == path {
        Some(i)
    } else {
        model_from(models, path, i + 1)
    }
}

/// Index of the model with the given path, unless the path is empty.
pub open spec fn model_index(models: Seq<TurretModel>, path: Seq<char>) -> Option<int> {
    if path.len() == 0 {
        None
    } else {
        model_from(models, path, 0)
    }
}

fn find_model(models: &Vec<TurretModel>, path: &str) -> (r: Option<usize>)
    ensures
        match r {
            Some(i) => model_index(models@, path@) == Some(i as int) && i < models@.len(),
            None => model_index(models@, path@) is None,
        },
{
    if path.is_empty() {
        return None;
    }
    let mut i: usize = 0;
    while i < models.len()
        invariant
            i <= models.len(),
            path@.len() > 0,
            model_from(models@, path@, i as int) == model_from(models@, path@, 0),
        decreases models.len() - i,
    {
        if text::same(models[i].model_path.as_str(), path) {
            return Some(i);
        }
        i += 1;
    }
    None
}

// ---- Compound hardpoints ----------------------------------------------------

/// Whether a hardpoint name is that of a child of `parent`: `parent`, an underscore
/// and more.
pub open spec fn is_child_of(hp_name: Seq<char>, parent: Seq<char>) -> bool {
    hp_name.len() > parent.len() && text::has_prefix(hp_name, parent) && hp_name[parent.len() as int]
        == '_'
}

/// Index of the parent of a hardpoint among the first `n` of a table: the longest name
/// that the hardpoint is a child of.
pub open spec fn parent_among(
    table: Seq<(Seq<char>, HullPoseView)>,
    hp_name: Seq<char>,
    n: int,
) -> Option<int>
    decreases n,
{
    if n <= 0 {
        None
    } else {
        match parent_among(table, hp_name, n - 1) {
            None => if is_child_of(hp_name, table[n - 1].0) {
                Some(n - 1)
            } else {
                None
            },
            Some(best) => if is_child_of(hp_name, table[n - 1].0) && table[n - 1].0.len()
                > table[best].0.len() {
                Some(n - 1)
            } else {
                Some(best)
            },
        }
    }
}

/// The parent that is chosen is one, no parent has a longer name, and none is chosen
/// only if there is none.
pub proof fn parent_is_the_longest(
    table: Seq<(Seq<char>, HullPoseView)>,
    hp_name: Seq<char>,
    n: int,
)
    requires
        n <= table.len(),
    ensures
        match parent_among(table, hp_name, n) {
            Some(best) => {
                &&& 0 <= best < n
                &&& is_child_of(hp_name, table[best].0)
                &&& forall|i: int|
                    0 <= i < n && is_child_of(hp_name, (#[trigger] table[i]).0) ==> table[i].0.len()
                        <= table[best].0.len()
            },
            None => forall|i: int| 0 <= i < n ==> !is_child_of(hp_name, (#[trigger] table[i]).0),
        },
    decreases n,
{
    if n > 0 {
        parent_is_the_longest(table, hp_name, n - 1);
    }
}

fn is_child(hp_name: &str, parent: &str) -> (r: bool)
    ensures
        r == is_child_of(hp_name@, parent@),
{
    let x = text::chars_of(hp_name);
    let y = text::chars_of(parent);
    x.len() > y.len() && text::starts_with(hp_name, parent) && x[y.len()] == '_'
}

fn find_parent(table: &Vec<NamedSlot<HullPose>>, hp_name: &str) -> (r: Option<usize>)
    ensures
        match r {
            Some(i) => parent_among(slots::slots(table@), hp_name@, table@.len() as int) == Some(
                i as int,
            ) && i < table@.len() && is_child_of(hp_name@, table@[i as int].name@),
            None => parent_among(slots::slots(table@), hp_name@, table@.len() as int) is None,
        },
{
    let mut best: Option<usize> = None;
    let mut i: usize = 0;
    let ghost names = slots::slots(table@);
    while i < table.len()
        invariant
            i <= table.len(),
            names == slots::slots(table@),
            match best {
                Some(k) => parent_among(names, hp_name@, i as int) == Some(k as int) && k
                    < table.len() && is_child_of(hp_name@, table@[k as int].name@),
                None => parent_among(names, hp_name@, i as int) is None,
            },
        decreases table.len() - i,
    {
        assert(names[i as int].0 == table@[i as int].name@);
        if is_child(hp_name, table[i].name.as_str()) {
            match best {
                None => {
                    best = Some(i);
                },
                Some(k) => {
                    assert(names[k as int].0 == table@[k as int].name@);
                    let a = text::chars_of(table[i].name.as_str());
                    let b = text::chars_of(table[k].name.as_str());
                    if a.len() > b.len() {
                        best = Some(i);
                    }
                },
            }
        }
        i += 1;
    }
    best
}

/// The model that stands at a hardpoint: that of the last of the first `n` mount points
/// there that has one.
pub open spec fn path_at(mounts: Seq<MountPoint>, hp_name: Seq<char>, n: int) -> Option<Seq<char>>
    decreases n,
{
    if n <= 0 {
        None
    } else if mounts[n - 1].hp_name@ == hp_name && mounts[n - 1].model_path@.len() > 0 {
        Some(mounts[n - 1].model_path@)
    } else {
        path_at(mounts, hp_name, n - 1)
    }
}

fn find_path_at(mounts: &Vec<MountPoint>, hp_name: &str) -> (r: Option<usize>)
    ensures
        match r {
            Some(i) => i < mounts@.len() && path_at(mounts@, hp_name@, mounts@.len() as int)
                == Some(mounts@[i as int].model_path@),
            None => path_at(mounts@, hp_name@, mounts@.len() as int) is None,
        },
{
    let mut i: usize = mounts.len();
    while i > 0
        invariant
            i <= mounts.len(),
            path_at(mounts@, hp_name@, i as int) == path_at(
                mounts@,
                hp_name@,
                mounts@.len() as int,
            ),
        decreases i,
    {
        if text::same(mounts[i - 1].hp_name.as_str(), hp_name)
            && !mounts[i - 1].model_path.as_str().is_empty() {
            return Some(i - 1);
        }
        i -= 1;
    }
    None
}

/// The transform of a hardpoint of a model.
pub open spec fn child_pose(model: TurretModel, hp_name: Seq<char>) -> Option<Seq<u32>> {
    match slots::slot_from(slots::slots(model.hardpoints@), hp_name, 0) {
        Some(i) => Some(model.hardpoints@[i].value@),
        None => None,
    }
}

/// A compound hardpoint: the hull hardpoint that it hangs from, and its transform in
/// the model that stands there.
pub open spec fn compound(
    hp_name: Seq<char>,
    table: Seq<(Seq<char>, HullPoseView)>,
    mounts: Seq<MountPoint>,
    models: Seq<TurretModel>,
) -> Option<(int, Seq<u32>)> {
    match parent_among(table, hp_name, table.len() as int) {
        None => None,
        Some(p) => match path_at(mounts, table[p].0, mounts.len() as int) {
            None => None,
            Some(path) => match model_index(models, path) {
                None => None,
                Some(m) => match child_pose(models[m], hp_name.skip(table[p].0.len() as int + 1)) {
                    None => None,
                    Some(pose) => Some((p, pose)),
                },
            },
        },
    }
}

/// Resolves a compound hardpoint such as `HP_AGM_3_HP_AGA_1`: the longest hull
/// hardpoint that it extends, and the transform of the rest of the name in the model
/// that is mounted there.
pub fn resolve_compound_hp(
    hp_name: &str,
    table: &Vec<NamedSlot<HullPose>>,
    mounts: &Vec<MountPoint>,
    models: &Vec<TurretModel>,
) -> (r: Option<(usize, Matrix4x4)>)
    ensures
        match r {
            Some((p, pose)) => compound(hp_name@, slots::slots(table@), mounts@, models@) == Some(
                (p as int, pose@),
            ) && p < table@.len(),
            None => compound(hp_name@, slots::slots(table@), mounts@, models@) is None,
        },
{
    let p: usize = match find_parent(table, hp_name) {
        Some(p) => p,
        None => {
            return None;
        },
    };
    let ghost names = slots::slots(table@);
    assert(names[p as int].0 == table@[p as int].name@);
    let i: usize = match find_path_at(mounts, table[p].name.as_str()) {
        Some(i) => i,
        None => {
            return None;
        },
    };
    let m: usize = match find_model(models, mounts[i].model_path.as_str()) {
        Some(m) => m,
        None => {
            return None;
        },
    };
    let x = text::chars_of(hp_name);
    let y = text::chars_of(table[p].name.as_str());
    assert(y.len() < x.len());
    let child = text::slice_text(&x, y.len() + 1, x.len());
    assert(child@ =~= hp_name@.skip(names[p as int].0.len() as int + 1));
    match slots::find(&models[m].hardpoints, child.as_str()) {
        Some(k) => Some((p, models[m].hardpoints[k].value)),
        None => None,
    }
}

// ---- Resolved mounts --------------------------------------------------------

/// A mounted component: which mount point, which model, and where.
#[derive(Debug)]
pub struct MountPlan {
    /// Index of the mount point.
    pub mount: usize,
    /// Index of the model.
    pub model: usize,
    /// Section of the hull that the component belongs to.
    pub parent_section: String,
    /// Transform of the armour: that of the hardpoint.
    pub armor_transform: Matrix4x4,
    /// Transform of the visible geometry.
    pub transform: Matrix4x4,
}

pub struct MountPlanView {
    pub mount: int,
    pub model: int,
    pub parent_section: Seq<char>,
    pub armor_transform: Seq<u32>,
    pub transform: Seq<u32>,
}

pub open spec fn opt_matrix(m: Option<Matrix4x4>) -> Option<Seq<u32>> {
    match m {
        Some(m) => Some(m@),
        None => None,
    }
}

impl View for MountPlan {
    type V = MountPlanView;

    open spec fn view(&self) -> MountPlanView {
        MountPlanView {
            mount: self.mount as int,
            model: self.model as int,
            parent_section: self.parent_section@,
            armor_transform: self.armor_transform@,
            transform: self.transform@,
        }
    }
}

pub open spec fn plan_views(s: Seq<MountPlan>) -> Seq<MountPlanView> {
    Seq::new(s.len(), |i: int| s[i]@)
}

/// Whether a component is a catapult. Catapults keep no rotation of their hardpoint.
pub open spec fn is_catapult(model_path: Seq<char>) -> bool {
    text::has_part(model_path, "/catapult/"@)
}

/// The transform of a hardpoint: that of the hull, times that in the model that carries
/// it.
pub open spec fn hardpoint_transform(hull: Seq<u32>, child: Option<Seq<u32>>) -> Seq<u32> {
    match child {
        Some(c) => transform::matrix_product(hull, c),
        None => hull,
    }
}

/// The transform of the visible geometry at a hardpoint. The rotation of the bone that
/// turns the model is undone; catapults keep only the position.
pub open spec fn visual_transform(hp: Seq<u32>, catapult: bool, bone: Option<Seq<u32>>) -> Seq<
    u32,
> {
    if catapult {
        translation(hp)
    } else {
        match bone {
            Some(b) => transform::matrix_product(hp, rotation_inverted(b)),
            None => hp,
        }
    }
}

/// The plan of a component whose hardpoints are known.
pub open spec fn placed(
    i: int,
    m: int,
    mount: MountPoint,
    model: TurretModel,
    pose: HullPoseView,
    child: Option<Seq<u32>>,
) -> MountPlanView {
    let hp = hardpoint_transform(pose.transform, child);
    MountPlanView {
        mount: i,
        model: m,
        parent_section: pose.section,
        armor_transform: hp,
        transform: visual_transform(
            hp,
            is_catapult(mount.model_path@),
            opt_matrix(model.blend_bone),
        ),
    }
}

/// The plan of mount point `i`, if its model is loaded and its hardpoint is one of the
/// hull or a compound one.
pub open spec fn mount_plan(
    i: int,
    table: Seq<(Seq<char>, HullPoseView)>,
    mounts: Seq<MountPoint>,
    models: Seq<TurretModel>,
) -> Option<MountPlanView> {
    let mount = mounts[i];
    match model_index(models, mount.model_path@) {
        None => None,
        Some(m) => match slots::slot_from(table, mount.hp_name@, 0) {
            Some(k) => Some(placed(i, m, mount, models[m], table[k].1, None)),
            None => match compound(mount.hp_name@, table, mounts, models) {
                Some((p, pose)) => Some(placed(i, m, mount, models[m], table[p].1, Some(pose))),
                None => None,
            },
        },
    }
}

/// The plans of the first `n` mount points.
pub open spec fn mount_plans(
    n: int,
    table: Seq<(Seq<char>, HullPoseView)>,
    mounts: Seq<MountPoint>,
    models: Seq<TurretModel>,
) -> Seq<MountPlanView>
    decreases n,
{
    if n <= 0 {
        Seq::empty()
    } else {
        let before = mount_plans(n - 1, table, mounts, models);
        match mount_plan(n - 1, table, mounts, models) {
            Some(p) => before.push(p),
            None => before,
        }
    }
}

fn place(
    i: usize,
    m: usize,
    mount: &MountPoint,
    model: &TurretModel,
    pose: &HullPose,
    child: Option<Matrix4x4>,
) -> (r: MountPlan)
    ensures
        r@ == placed(i as int, m as int, *mount, *model, pose@, opt_matrix(child)),
{
    let hp: Matrix4x4 = match &child {
        Some(c) => transform::mat4_mul_col_major(&pose.transform, c),
        None => pose.transform,
    };
    let visual: Matrix4x4 = if text::contains(mount.model_path.as_str(), "/catapult/") {
        translation_only(&hp)
    } else {
        match &model.blend_bone {
            Some(bone) => transform::mat4_mul_col_major(&hp, &mat4_rotation_inverse(bone)),
            None => hp,
        }
    };
    MountPlan {
        mount: i,
        model: m,
        parent_section: text::copy(pose.section.as_str()),
        armor_transform: hp,
        transform: visual,
    }
}

fn plan_mount(
    i: usize,
    table: &Vec<NamedSlot<HullPose>>,
    mounts: &Vec<MountPoint>,
    models: &Vec<TurretModel>,
) -> (r: Option<MountPlan>)
    requires
        i < mounts@.len(),
    ensures
        match r {
            Some(p) => mount_plan(i as int, slots::slots(table@), mounts@, models@) == Some(p@),
            None => mount_plan(i as int, slots::slots(table@), mounts@, models@) is None,
        },
{
    let mount = &mounts[i];
    let m: usize = match find_model(models, mount.model_path.as_str()) {
        Some(m) => m,
        None => {
            return None;
        },
    };
    match slots::find(table, mount.hp_name.as_str()) {
        Some(k) => Some(place(i, m, mount, &models[m], &table[k].value, None)),
        None => match resolve_compound_hp(mount.hp_name.as_str(), table, mounts, models) {
            Some((p, pose)) => Some(
                place(i, m, mount, &models[m], &table[p].value, Some(pose)),
            ),
            None => None,
        },
    }
}

/// Plans the mounted components of a ship: the mount points whose model is loaded and
/// whose hardpoint is found, in order.
pub fn plan_mounts(
    table: &Vec<NamedSlot<HullPose>>,
    mounts: &Vec<MountPoint>,
    models: &Vec<TurretModel>,
) -> (r: Vec<MountPlan>)
    ensures
        plan_views(r@) == mount_plans(
            mounts@.len() as int,
            slots::slots(table@),
            mounts@,
            models@,
        ),
{
    let mut out: Vec<MountPlan> = Vec::new();
    let mut i: usize = 0;
    let ghost names = slots::slots(table@);
    assert(plan_views(out@) =~= mount_plans(0, names, mounts@, models@));
    while i < mounts.len()
        invariant
            i <= mounts.len(),
            names == slots::slots(table@),
            plan_views(out@) == mount_plans(i as int, names, mounts@, models@),
        decreases mounts.len() - i,
    {
        let ghost before = out@;
        if let Some(p) = plan_mount(i, table, mounts, models) {
            let ghost view = p@;
            out.push(p);
            assert(plan_views(out@) =~= plan_views(before).push(view));
        }
        i += 1;
    }
    out
}

/// Every plan refers to a mount point and to a loaded model of its path, and the plans
/// stand in the order of the mount points.
pub proof fn plans_refer_to_models(
    n: int,
    table: Seq<(Seq<char>, HullPoseView)>,
    mounts: Seq<MountPoint>,
    models: Seq<TurretModel>,
)
    requires
        0 <= n <= mounts.len(),
    ensures
        forall|k: int|
            0 <= k < mount_plans(n, table, mounts, models).len() ==> {
                let p = #[trigger] mount_plans(n, table, mounts, models)[k];
                &&& 0 <= p.mount < n
                &&& 0 <= p.model < models.len()
                &&& models[p.model].model_path@ == mounts[p.mount].model_path@
            },
        forall|k: int, l: int|
            0 <= k < l < mount_plans(n, table, mounts, models).len() ==> (#[trigger] mount_plans(
                n,
                table,
                mounts,
                models,
            )[k]).mount < (#[trigger] mount_plans(n, table, mounts, models)[l]).mount,
    decreases n,
{
    if n > 0 {
        plans_refer_to_models(n - 1, table, mounts, models);
        model_from_is_exact(models, mounts[n - 1].model_path@, 0);
        let before = mount_plans(n - 1, table, mounts, models);
        let now = mount_plans(n, table, mounts, models);
        assert forall|k: int| 0 <= k < now.len() implies {
            let p = #[trigger] now[k];
            &&& 0 <= p.mount < n
            &&& 0 <= p.model < models.len()
            &&& models[p.model].model_path@ == mounts[p.mount].model_path@
        } by {
            if k < before.len() {
                assert(now[k] == before[k]);
            }
        }
        assert forall|k: int, l: int| 0 <= k < l < now.len() implies (#[trigger] now[k]).mount < (
        #[trigger] now[l]).mount by {
            assert(now[k] == before[k]);
            if l < before.len() {
                assert(now[l] == before[l]);
            }
        }
    }
}

proof fn model_from_is_exact(models: Seq<TurretModel>, path: Seq<char>, i: int)
    requires
        0 <= i,
    ensures
        model_from(models, path, i) matches Some(k) ==> i <= k < models.len()
            && models[k].model_path@ == path,
    decreases models.len() - i,
{
    if i < models.len() && models[i].model_path@ != path {
        model_from_is_exact(models, path, i + 1);
    }
}

/// A mounted component.
#[derive(Debug)]
pub struct ResolvedMount {
    pub hp_name: String,
    /// Section of the hull that it belongs to.
    pub parent_section: Option<String>,
    /// Index of its model.
    pub turret_model_index: usize,
    /// Transform of the visible geometry.
    pub transform: Option<Matrix4x4>,
    /// Transform of the armour: that of the hardpoint.
    pub armor_transform: Option<Matrix4x4>,
    pub species: Option<MountSpecies>,
    pub display_group: Option<String>,
    /// How its barrels are pitched, if they are.
    pub barrel_pitch: Option<BarrelPitch>,
    pub model_path: String,
    pub ammo_list: Vec<String>,
    /// The armour of the component, where it has its own.
    pub mount_armor: Option<Vec<ArmorPlate>>,
}

/// The pitch of the barrels of a component: none unless its least elevation is above
/// zero.
pub open spec fn mount_pitch(db: PrototypeDatabase, mount: MountPoint, model: TurretModel) -> Option<
    (Seq<u32>, Seq<u8>),
> {
    if arith::is_less(0, mount.min_pitch) {
        barrels::barrel_pitch(
            model.sub_model.visual,
            db,
            child_pose(model, "Rotate_X"@),
            mount.pitch_sin,
            mount.pitch_cos,
        )
    } else {
        None
    }
}

impl ResolvedMount {
    /// Whether this is the component of a plan.
    pub open spec fn follows(
        &self,
        plan: MountPlanView,
        db: PrototypeDatabase,
        mounts: Seq<MountPoint>,
        models: Seq<TurretModel>,
    ) -> bool {
        let mount = mounts[plan.mount];
        &&& self.hp_name@ == mount.hp_name@
        &&& text::opt_text(self.parent_section) == Some(plan.parent_section)
        &&& self.turret_model_index == plan.model
        &&& opt_matrix(self.transform) == Some(plan.transform)
        &&& opt_matrix(self.armor_transform) == Some(plan.armor_transform)
        &&& self.species == mount.species
        &&& text::opt_text(self.display_group) == text::opt_text(mount.display_group)
        &&& barrels::opt_pitch(self.barrel_pitch) == mount_pitch(db, mount, models[plan.model])
        &&& self.model_path@ == mount.model_path@
        &&& text::texts(self.ammo_list@) == text::texts(mount.ammo_list@)
        &&& types::opt_armor(self.mount_armor) == types::opt_armor(mount.mount_armor)
    }
}

fn resolve(db: &PrototypeDatabase, plan: &MountPlan, mount: &MountPoint, model: &TurretModel) -> (r:
    ResolvedMount)
    ensures
        forall|mounts: Seq<MountPoint>, models: Seq<TurretModel>|
            mounts[plan.mount as int] == *mount && models[plan.model as int] == *model
                ==> #[trigger] r.follows(plan@, *db, mounts, models),
        r.turret_model_index == plan.model,
{
    let barrel_pitch: Option<BarrelPitch> = if arith::less_than(0, mount.min_pitch) {
        let pivot: Option<Matrix4x4> = match slots::find(&model.hardpoints, "Rotate_X") {
            Some(k) => Some(model.hardpoints[k].value),
            None => None,
        };
        barrels::build_barrel_pitch(
            &model.sub_model.visual,
            db,
            &pivot,
            mount.pitch_sin,
            mount.pitch_cos,
        )
    } else {
        None
    };
    ResolvedMount {
        hp_name: text::copy(mount.hp_name.as_str()),
        parent_section: Some(text::copy(plan.parent_section.as_str())),
        turret_model_index: plan.model,
        transform: Some(plan.transform),
        armor_transform: Some(plan.armor_transform),
        species: mount.species,
        display_group: text::copy_option(&mount.display_group),
        barrel_pitch,
        model_path: text::copy(mount.model_path.as_str()),
        ammo_list: text::copy_list(&mount.ammo_list),
        mount_armor: types::copy_armor(&mount.mount_armor),
    }
}

/// Resolves the mount points of a ship: those whose model is loaded and whose hardpoint
/// is found, in order.
pub fn load_mounts(
    db: &PrototypeDatabase,
    table: &Vec<NamedSlot<HullPose>>,
    mounts: &Vec<MountPoint>,
    models: &Vec<TurretModel>,
) -> (r: Vec<ResolvedMount>)
    ensures
        ({
            let plans = mount_plans(
                mounts@.len() as int,
                slots::slots(table@),
                mounts@,
                models@,
            );
            &&& r@.len() == plans.len()
            &&& forall|k: int|
                0 <= k < r@.len() ==> (#[trigger] r@[k]).follows(plans[k], *db, mounts@, models@)
        }),
        forall|k: int|
            0 <= k < r@.len() ==> (#[trigger] r@[k]).turret_model_index < models@.len(),
{
    let plans = plan_mounts(table, mounts, models);
    let ghost all = plan_views(plans@);
    proof {
        plans_refer_to_models(mounts@.len() as int, slots::slots(table@), mounts@, models@);
    }
    let mut out: Vec<ResolvedMount> = Vec::new();
    let mut i: usize = 0;
    while i < plans.len()
        invariant
            i <= plans.len(),
            all == plan_views(plans@),
            forall|k: int|
                0 <= k < all.len() ==> 0 <= (#[trigger] all[k]).mount < mounts@.len() && 0
                    <= all[k].model < models@.len(),
            out@.len() == i,
            forall|k: int|
                0 <= k < i ==> (#[trigger] out@[k]).follows(all[k], *db, mounts@, models@),
            forall|k: int|
                0 <= k < i ==> (#[trigger] out@[k]).turret_model_index < models@.len(),
        decreases plans.len() - i,
    {
        let plan = &plans[i];
        assert(plan@ == all[i as int]);
        let m = resolve(db, plan, &mounts[plan.mount], &models[plan.model]);
        assert(m.follows(plan@, *db, mounts@, models@));
        out.push(m);
        i += 1;
    }
    out
}

// ---- Where mounted models stand ---------------------------------------------

/// A compound hardpoint stands where its parent's transform takes the place that it has on
/// the parent, however the parent is turned.
pub proof fn compound_hardpoints_stand_on_their_parents(hull: Seq<u32>, child: Seq<u32>)
    requires
        hull.len() == 16,
        child.len() == 16,
        child[15] == single::ONE_BITS,
        !single::is_nan(hull[12]),
        !single::is_nan(hull[13]),
        !single::is_nan(hull[14]),
    ensures
        hardpoint_transform(hull, Some(child)).subrange(12, 15) == transform::transformed(
            hull,
            seq![child[12], child[13], child[14]],
        ),
{
    transform::products_take_the_origin_along(hull, child);
    assert(child.subrange(12, 15) =~= seq![child[12], child[13], child[14]]);
}

/// What is fixed to a compound hardpoint is first moved with the hardpoint, then with the
/// parent.
pub proof fn compound_hardpoints_move_with_their_parents(
    hull: Seq<u32>,
    child: Seq<u32>,
    p: Seq<u32>,
    m: Seq<int>,
    n: Seq<int>,
    q: Seq<int>,
)
    requires
        transform::cells_are(hull, m),
        transform::cells_are(child, n),
        transform::place_is(p, q),
        transform::within(m, 64),
        transform::within(n, 64),
        transform::within(q, 64),
        transform::moves_points(m),
        transform::moves_points(n),
    ensures
        transform::place_is(
            transform::transformed(hardpoint_transform(hull, Some(child)), p),
            transform::taken(m, transform::taken(n, q)),
        ),
{
    transform::products_apply_the_second_transform_first(hull, child, p, m, n, q);
}

/// A hardpoint of the hull itself stands as the hull says.
pub proof fn plain_hardpoints_stay(hull: Seq<u32>)
    ensures
        hardpoint_transform(hull, None) == hull,
        visual_transform(hull, false, None) == hull,
{
}

/// A catapult is not turned: points keep their distance from the hardpoint, axis by axis.
pub proof fn catapults_are_not_turned(
    hp: Seq<u32>,
    bone: Option<Seq<u32>>,
    p: Seq<u32>,
    n: Seq<int>,
    q: Seq<int>,
)
    requires
        transform::cells_are(hp, n),
        transform::place_is(p, q),
        transform::within(n, 1024),
        transform::within(q, 1024),
    ensures
        transform::place_is(
            transform::transformed(visual_transform(hp, true, bone), p),
            seq![n[12] + q[0], n[13] + q[1], n[14] + q[2]],
        ),
{
    let turned = visual_transform(hp, true, bone);
    let cells = seq![
        1int, 0, 0, 0, 0, 1, 0, 0, 0, 0, 1, 0, n[12], n[13], n[14], 1,
    ];
    exact::one();
    exact::zero(0);
    assert(exact::stands_for(hp[12], n[12], 0) && exact::stands_for(hp[13], n[13], 0)
        && exact::stands_for(hp[14], n[14], 0));
    assert forall|i: int| 0 <= i < 16 implies exact::stands_for(#[trigger] turned[i], cells[i], 0) by {
        assert(IDENTITY_4X4@[i] == if i % 5 == 0 {
            single::ONE_BITS
        } else {
            0
        });
    }
    assert(-1024 <= n[12] <= 1024 && -1024 <= n[13] <= 1024 && -1024 <= n[14] <= 1024);
    transform::points_are_taken_along_the_axes(turned, p, cells, q, 1024, 1024);
    let (x, y, z) = (q[0], q[1], q[2]);
    assert(x * 1 == x && y * 1 == y && z * 1 == z && x * 0 == 0 && y * 0 == 0 && z * 0 == 0);
    assert(transform::taken(cells, q) =~= seq![n[12] + q[0], n[13] + q[1], n[14] + q[2]]);
}

/// Whether the axes of a transform are of length one and at right angles, and it has no
/// translation.
pub open spec fn only_turns(r: Seq<int>) -> bool {
    &&& r.len() == 16
    &&& r[0] * r[0] + r[4] * r[4] + r[8] * r[8] == 1
    &&& r[1] * r[1] + r[5] * r[5] + r[9] * r[9] == 1
    &&& r[2] * r[2] + r[6] * r[6] + r[10] * r[10] == 1
    &&& r[0] * r[1] + r[4] * r[5] + r[8] * r[9] == 0
    &&& r[0] * r[2] + r[4] * r[6] + r[8] * r[10] == 0
    &&& r[1] * r[2] + r[5] * r[6] + r[9] * r[10] == 0
    &&& r[3] == 0 && r[7] == 0 && r[11] == 0
    &&& r[12] == 0 && r[13] == 0 && r[14] == 0 && r[15] == 1
}

proof fn turned_back(
    a: (int, int, int),
    x: (int, int, int),
    y: (int, int, int),
    z: (int, int, int),
    v: (int, int, int),
)
    ensures
        (x.0 * a.0 + x.1 * a.1 + x.2 * a.2) * v.0 + (y.0 * a.0 + y.1 * a.1 + y.2 * a.2) * v.1 + (z.0
            * a.0 + z.1 * a.1 + z.2 * a.2) * v.2 == a.0 * (x.0 * v.0 + y.0 * v.1 + z.0 * v.2) + a.1
            * (x.1 * v.0 + y.1 * v.1 + z.1 * v.2) + a.2 * (x.2 * v.0 + y.2 * v.1 + z.2 * v.2),
{
    let (a0, a1, a2) = a;
    let (x0, x1, x2) = x;
    let (y0, y1, y2) = y;
    let (z0, z1, z2) = z;
    let (v0, v1, v2) = v;
    three_products(x0, x1, x2, a0, a1, a2, v0);
    three_products(y0, y1, y2, a0, a1, a2, v1);
    three_products(z0, z1, z2, a0, a1, a2, v2);
    three_terms(a0, x0 * v0, y0 * v1, z0 * v2);
    three_terms(a1, x1 * v0, y1 * v1, z1 * v2);
    three_terms(a2, x2 * v0, y2 * v1, z2 * v2);
}

proof fn three_terms(a: int, x: int, y: int, z: int)
    ensures
        a * (x + y + z) == a * x + a * y + a * z,
{
    lemma_mul_is_distributive_add(a, x + y, z);
    lemma_mul_is_distributive_add(a, x, y);
}

proof fn three_products(x: int, y: int, z: int, a: int, b: int, c: int, v: int)
    ensures
        (x * a + y * b + z * c) * v == a * (x * v) + b * (y * v) + c * (z * v),
{
    lemma_mul_is_distributive_add_other_way(v, x * a + y * b, z * c);
    lemma_mul_is_distributive_add_other_way(v, x * a, y * b);
    assert((x * a) * v == a * (x * v)) by (nonlinear_arith);
    assert((y * b) * v == b * (y * v)) by (nonlinear_arith);
    assert((z * c) * v == c * (z * v)) by (nonlinear_arith);
}

/// The rotation of a model's bone is undone: where the hardpoint brings that rotation in,
/// the model stands as it would without both.
#[verifier::rlimit(50)]
pub proof fn bone_rotations_are_undone(
    h: Seq<u32>,
    b: Seq<u32>,
    m: Seq<int>,
    r: Seq<int>,
)
    requires
        transform::cells_are(h, m),
        transform::cells_are(b, r),
        transform::within(m, 64),
        transform::within(r, 64),
        transform::moves_points(m),
        only_turns(r),
    ensures
        transform::cells_are(
            visual_transform(transform::matrix_product(h, b), false, Some(b)),
            m,
        ),
{
    transform::small_transforms_multiply_exactly(h, b, m, r, 64, 64);
    let back = rotation_inverted(b);
    let t = seq![
        r[0], r[4], r[8], 0, r[1], r[5], r[9], 0, r[2], r[6], r[10], 0, 0, 0, 0, 1,
    ];
    exact::one();
    exact::zero(0);
    assert(transform::cells_are(back, t)) by {
        assert forall|i: int| 0 <= i < 16 implies exact::stands_for(#[trigger] back[i], t[i], 0) by {
            if i % 4 < 3 && i / 4 < 3 {
                let j = i % 4 * 4 + i / 4;
                assert(exact::stands_for(b[j], r[j], 0));
                assert(t[i] == r[j]);
            }
        }
    }
    assert(transform::within(t, 64)) by {
        assert forall|i: int| 0 <= i < 16 implies -64 <= #[trigger] t[i] <= 64 by {
            if i % 4 < 3 && i / 4 < 3 {
                let j = i % 4 * 4 + i / 4;
                assert(t[i] == r[j]);
                assert(-64 <= r[j] <= 64);
            }
        }
    }
    let c = transform::applied_to_columns(m, r);
    assert(transform::within(c, 0x4000)) by {
        assert forall|i: int| 0 <= i < 16 implies -0x4000 <= #[trigger] c[i] <= 0x4000 by {
            let k = i / 4 * 4;
            transform::products_are_bounded(r[k], m[i % 4], 64, 64);
            transform::products_are_bounded(r[k + 1], m[4 + i % 4], 64, 64);
            transform::products_are_bounded(r[k + 2], m[8 + i % 4], 64, 64);
            transform::products_are_bounded(r[k + 3], m[12 + i % 4], 64, 64);
        }
    }
    transform::small_transforms_multiply_exactly(
        transform::matrix_product(h, b),
        back,
        c,
        t,
        0x4000,
        64,
    );
    let d = transform::applied_to_columns(c, t);
    assert forall|row: int| 0 <= row < 4 implies d[row] == m[row] && d[4 + row] == m[4 + row] && d[8
        + row] == m[8 + row] && #[trigger] d[12 + row] == m[12 + row] by {
        rows_are_turned_back(m, r, t, row);
    }
    assert(d =~= m) by {
        assert forall|i: int| 0 <= i < 16 implies d[i] == m[i] by {
            assert(d[12 + i % 4] == m[12 + i % 4]);
        }
    }
}

#[verifier::rlimit(50)]
proof fn rows_are_turned_back(m: Seq<int>, r: Seq<int>, t: Seq<int>, row: int)
    requires
        m.len() == 16,
        only_turns(r),
        0 <= row < 4,
        t == seq![
            r[0], r[4], r[8], 0, r[1], r[5], r[9], 0, r[2], r[6], r[10], 0, 0, 0, 0, 1,
        ],
    ensures
        ({
            let d = transform::applied_to_columns(transform::applied_to_columns(m, r), t);
            d[row] == m[row] && d[4 + row] == m[4 + row] && d[8 + row] == m[8 + row] && d[12 + row]
                == m[12 + row]
        }),
{
    let c = transform::applied_to_columns(m, r);
    let d = transform::applied_to_columns(c, t);
    let a = (m[row], m[4 + row], m[8 + row]);
    let w = m[12 + row];
    let (x, y, z) = ((r[0], r[1], r[2]), (r[4], r[5], r[6]), (r[8], r[9], r[10]));
    assert(0 * w == 0 && 1 * w == w);
    assert(0 * m[row] == 0 && 0 * m[4 + row] == 0 && 0 * m[8 + row] == 0);
    assert(c[row] == x.0 * a.0 + x.1 * a.1 + x.2 * a.2);
    assert(c[4 + row] == y.0 * a.0 + y.1 * a.1 + y.2 * a.2);
    assert(c[8 + row] == z.0 * a.0 + z.1 * a.1 + z.2 * a.2);
    assert(c[12 + row] == w);
    assert(0 * c[row] == 0 && 0 * c[4 + row] == 0 && 0 * c[8 + row] == 0);
    turned_back(a, x, y, z, (r[0], r[4], r[8]));
    turned_back(a, x, y, z, (r[1], r[5], r[9]));
    turned_back(a, x, y, z, (r[2], r[6], r[10]));
    let (u, v, s) = (c[row], c[4 + row], c[8 + row]);
    assert(d[row] == r[0] * u + r[4] * v + r[8] * s);
    assert(d[4 + row] == r[1] * u + r[5] * v + r[9] * s);
    assert(d[8 + row] == r[2] * u + r[6] * v + r[10] * s);
    assert(r[0] * u == u * r[0] && r[4] * v == v * r[4] && r[8] * s == s * r[8])
        by (nonlinear_arith);
    assert(r[1] * u == u * r[1] && r[5] * v == v * r[5] && r[9] * s == s * r[9])
        by (nonlinear_arith);
    assert(r[2] * u == u * r[2] && r[6] * v == v * r[6] && r[10] * s == s * r[10])
        by (nonlinear_arith);
    assert(r[1] * r[0] == r[0] * r[1] && r[5] * r[4] == r[4] * r[5] && r[9] * r[8] == r[8] * r[9])
        by (nonlinear_arith);
    assert(r[2] * r[0] == r[0] * r[2] && r[6] * r[4] == r[4] * r[6] && r[10] * r[8] == r[8] * r[10])
        by (nonlinear_arith);
    assert(r[2] * r[1] == r[1] * r[2] && r[6] * r[5] == r[5] * r[6] && r[10] * r[9] == r[9] * r[10])
        by (nonlinear_arith);
    assert(a.0 * 1 == a.0 && a.1 * 1 == a.1 && a.2 * 1 == a.2 && a.0 * 0 == 0 && a.1 * 0 == 0 && a.2
        * 0 == 0);
}

/// The armor of a mounted model stands at the hardpoint; so does the model, unless it is a
/// catapult or has a bone. A hardpoint of the hull is used before one of another model.
pub proof fn models_stand_at_their_hardpoints(
    i: int,
    table: Seq<(Seq<char>, HullPoseView)>,
    mounts: Seq<MountPoint>,
    models: Seq<TurretModel>,
    k: int,
)
    requires
        0 <= i < mounts.len(),
        0 <= k < table.len(),
        slots::has_distinct_names(table),
        table[k].0 == mounts[i].hp_name@,
        mount_plan(i, table, mounts, models) is Some,
    ensures
        ({
            let plan = mount_plan(i, table, mounts, models)->0;
            &&& plan.mount == i
            &&& plan.parent_section == table[k].1.section
            &&& plan.armor_transform == table[k].1.transform
            &&& !is_catapult(mounts[i].model_path@) && models[plan.model].blend_bone is None
                ==> plan.transform == plan.armor_transform
        }),
{
    slots::slot_from_is_exact(table, mounts[i].hp_name@, 0);
}

/// A mount at a hardpoint of another mounted model stands on that model: the name of the
/// hardpoint is the parent's name, an underscore and the name that the parent's model gives
/// it, and its place is where the parent takes the place it has there.
pub proof fn models_stand_on_their_parents(
    i: int,
    table: Seq<(Seq<char>, HullPoseView)>,
    mounts: Seq<MountPoint>,
    models: Seq<TurretModel>,
)
    requires
        0 <= i < mounts.len(),
        slots::slot_from(table, mounts[i].hp_name@, 0) is None,
        mount_plan(i, table, mounts, models) is Some,
        compound(mounts[i].hp_name@, table, mounts, models) is Some,
    ensures
        ({
            let plan = mount_plan(i, table, mounts, models)->0;
            let (p, pose) = compound(mounts[i].hp_name@, table, mounts, models)->0;
            let hull = table[p].1.transform;
            &&& 0 <= p < table.len()
            &&& plan.parent_section == table[p].1.section
            &&& exists|rest: Seq<char>, m: int|
                #![trigger child_pose(models[m], rest)]
                {
                    &&& mounts[i].hp_name@ == table[p].0 + "_"@ + rest
                    &&& 0 <= m < models.len()
                    &&& child_pose(models[m], rest) == Some(pose)
                    &&& path_at(mounts, table[p].0, mounts.len() as int) == Some(
                        models[m].model_path@,
                    )
                }
            &&& hull.len() == 16 && pose.len() == 16 && pose[15] == single::ONE_BITS
                && !single::is_nan(hull[12]) && !single::is_nan(hull[13]) && !single::is_nan(
                hull[14],
            ) ==> plan.armor_transform.subrange(12, 15) == transform::transformed(
                hull,
                seq![pose[12], pose[13], pose[14]],
            )
        }),
{
    let hp_name = mounts[i].hp_name@;
    let (p, pose) = compound(hp_name, table, mounts, models)->0;
    let hull = table[p].1.transform;
    parent_is_the_longest(table, hp_name, table.len() as int);
    let parent = table[p].0;
    let rest = hp_name.skip(parent.len() as int + 1);
    reveal_strlit("_");
    assert(hp_name =~= parent + "_"@ + rest) by {
        assert forall|j: int| 0 <= j < parent.len() implies hp_name[j] == parent[j] by {
            assert(hp_name.take(parent.len() as int)[j] == hp_name[j]);
        }
    }
    let path = path_at(mounts, parent, mounts.len() as int)->0;
    let m = model_index(models, path)->0;
    model_from_is_exact(models, path, 0);
    assert(child_pose(models[m], rest) == Some(pose));
    if hull.len() == 16 && pose.len() == 16 && pose[15] == single::ONE_BITS && !single::is_nan(
        hull[12],
    ) && !single::is_nan(hull[13]) && !single::is_nan(hull[14]) {
        compound_hardpoints_stand_on_their_parents(hull, pose);
    }
}

/// Where several mounts name one hardpoint, the last one that has a model counts.
pub proof fn last_mounts_count(mounts: Seq<MountPoint>, hp_name: Seq<char>, n: int, k: int)
    requires
        0 <= k < n <= mounts.len(),
        mounts[k].hp_name@ == hp_name,
        mounts[k].model_path@.len() > 0,
        forall|j: int|
            k < j < n ==> (#[trigger] mounts[j]).hp_name@ != hp_name || mounts[j].model_path@.len()
                == 0,
    ensures
        path_at(mounts, hp_name, n) == Some(mounts[k].model_path@),
    decreases n,
{
    if k < n - 1 {
        last_mounts_count(mounts, hp_name, n - 1, k);
    }
}

/// The section of a hull part is what stands behind the name of the model; a part that is
/// not named after the model is the whole hull.
pub proof fn sections_stand_behind_the_model(model_dir: Seq<char>, section: Seq<char>, part: Seq<char>)
    ensures
        section_name(model_dir + "_"@ + section, model_dir) == section,
        !text::has_prefix(part, model_dir + "_"@) ==> section_name(part, model_dir) == "Full"@,
{
    let prefix = model_dir + "_"@;
    text_laws::prefixes_are_continued(section, prefix);
    assert((prefix + section).skip(prefix.len() as int) =~= section);
}

/// A hardpoint stands where the last node of its name stands, in the section of the part
/// that is read; nodes without a pose, and those whose name does not start with `HP_`, are
/// none.
pub proof fn last_nodes_count(
    table: Seq<(Seq<char>, HullPoseView)>,
    db: PrototypeDatabase,
    nodes: Seq<NodePose>,
    section: Seq<char>,
    n: int,
    k: int,
)
    requires
        0 <= k < n <= nodes.len(),
        nodes[k].pose is Some,
        db.string(nodes[k].name_id) is Some,
        text::has_prefix(db.string(nodes[k].name_id)->0, "HP_"@),
        forall|j: int|
            k < j < n ==> db.string((#[trigger] nodes[j]).name_id) != db.string(nodes[k].name_id),
    ensures
        ({
            let name = db.string(nodes[k].name_id)->0;
            let all = with_nodes(table, db, nodes, section, n);
            slots::slot_from(all, name, 0) matches Some(i) && 0 <= i < all.len() && all[i].1.section
                == section && all[i].1.transform == (nodes[k].pose->0)@
        }),
    decreases n,
{
    let name = db.string(nodes[k].name_id)->0;
    let before = with_nodes(table, db, nodes, section, n - 1);
    if k < n - 1 {
        last_nodes_count(table, db, nodes, section, n - 1, k);
        assert(db.string(nodes[n - 1].name_id) != db.string(nodes[k].name_id));
        if is_hardpoint(db, nodes[n - 1]) {
            slots::other_bindings_keep_slots(
                before,
                db.string(nodes[n - 1].name_id)->0,
                HullPoseView { section, transform: (nodes[n - 1].pose->0)@ },
                name,
            );
        }
    } else {
        slots::bindings_are_found(
            before,
            name,
            HullPoseView { section, transform: (nodes[k].pose->0)@ },
        );
    }
}

/// A loaded mount at a hardpoint of the hull has its armour at the hardpoint and goes by the
/// names of its mount point.
pub proof fn loaded_mounts_stand_at_their_hardpoints(
    loaded: ResolvedMount,
    i: int,
    table: Seq<(Seq<char>, HullPoseView)>,
    db: PrototypeDatabase,
    mounts: Seq<MountPoint>,
    models: Seq<TurretModel>,
    k: int,
)
    requires
        0 <= i < mounts.len(),
        0 <= k < table.len(),
        slots::has_distinct_names(table),
        table[k].0 == mounts[i].hp_name@,
        mount_plan(i, table, mounts, models) is Some,
        loaded.follows(mount_plan(i, table, mounts, models)->0, db, mounts, models),
    ensures
        loaded.hp_name@ == mounts[i].hp_name@,
        loaded.model_path@ == mounts[i].model_path@,
        text::opt_text(loaded.parent_section) == Some(table[k].1.section),
        opt_matrix(loaded.armor_transform) == Some(table[k].1.transform),
        !is_catapult(mounts[i].model_path@) && models[loaded.turret_model_index as int].blend_bone
            is None ==> opt_matrix(loaded.transform) == Some(table[k].1.transform),
        loaded.species == mounts[i].species,
        text::texts(loaded.ammo_list@) == text::texts(mounts[i].ammo_list@),
{
    models_stand_at_their_hardpoints(i, table, mounts, models, k);
}

/// Barrels are lifted only on mounts whose lowest pitch is above zero, and then by the angle
/// of the mount: its cosine stands on the diagonal, its sine beside it.
pub proof fn barrels_are_lifted_by_the_pitch_of_the_mount(
    db: PrototypeDatabase,
    mount: MountPoint,
    model: TurretModel,
)
    ensures
        !arith::is_less(0, mount.min_pitch) ==> mount_pitch(db, mount, model) is None,
        mount_pitch(db, mount, model) matches Some(p) ==> {
            &&& p.0[5] == mount.pitch_cos
            &&& p.0[10] == mount.pitch_cos
            &&& p.0[9] == mount.pitch_sin
            &&& p.0[6] == single::negated(mount.pitch_sin)
            &&& p.0[0] == single::ONE_BITS
            &&& p.0[15] == single::ONE_BITS
        },
{
    single::negation_is_an_involution(mount.pitch_sin);
}

} // verus!
