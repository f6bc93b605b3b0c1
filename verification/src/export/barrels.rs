//! Barrels of a turret: the bones that pitch with the guns.
use vstd::prelude::*;

use crate::arith;
use crate::exact;
use crate::export::mounts;
use crate::models::assets_bin::PrototypeDatabase;
use crate::models::skel_ext;
use crate::models::transform;
use crate::models::visual::matrix_position;
use crate::models::visual::Matrix4x4;
use crate::models::visual::VisualNodes;
use crate::models::visual::VisualPrototype;
use crate::single;
use crate::text;

verus! {

/// Whether entry `i` of the name map of a skeleton has both a name and a node.
pub open spec fn is_named_entry(nodes: VisualNodes, i: int) -> bool {
    0 <= i < nodes.name_map_name_ids@.len() && i < nodes.name_map_node_ids@.len()
}

/// The node with the given name, from entry `i` of the name map on.
pub open spec fn node_named_from(
    db: PrototypeDatabase,
    nodes: VisualNodes,
    name: Seq<char>,
    i: int,
) -> Option<u16>
    decreases nodes.name_map_name_ids@.len() - i,
{
    if !is_named_entry(nodes, i) {
        None
    } else if db.string(nodes.name_map_name_ids@[i]) == Some(name) {
        Some(nodes.name_map_node_ids@[i])
    } else {
        node_named_from(db, nodes, name, i + 1)
    }
}

/// The node with the given name id, from entry `i` of the name map on.
pub open spec fn node_of_id_from(nodes: VisualNodes, name_id: u32, i: int) -> Option<u16>
    decreases nodes.name_map_name_ids@.len() - i,
{
    if !is_named_entry(nodes, i) {
        None
    } else if nodes.name_map_name_ids@[i] == name_id {
        Some(nodes.name_map_node_ids@[i])
    } else {
        node_of_id_from(nodes, name_id, i + 1)
    }
}

/// Whether `ancestor` is reached from `node` in at least one and at most `steps` steps
/// from a node to its parent.
pub open spec fn descends(parents: Seq<u16>, node: u16, ancestor: u16, steps: nat) -> bool
    decreases steps,
{
    steps > 0 && node < parents.len() && (parents[node as int] == ancestor || descends(
        parents,
        parents[node as int],
        ancestor,
        (steps - 1) as nat,
    ))
}

impl VisualPrototype {
    /// Finds a node by its name.
    pub fn find_node_index_by_name(&self, name: &str, db: &PrototypeDatabase) -> (r: Option<u16>)
        ensures
            r == node_named_from(*db, self.nodes, name@, 0),
    {
        let ids = &self.nodes.name_map_name_ids;
        let mut i: usize = 0;
        while i < ids.len() && i < self.nodes.name_map_node_ids.len()
            invariant
                i <= ids.len(),
                *ids == self.nodes.name_map_name_ids,
                node_named_from(*db, self.nodes, name@, i as int) == node_named_from(
                    *db,
                    self.nodes,
                    name@,
                    0,
                ),
            decreases ids.len() - i,
        {
            if let Some(s) = db.get_string_by_id(ids[i]) {
                if text::same(s.as_str(), name) {
                    return Some(self.nodes.name_map_node_ids[i]);
                }
            }
            i += 1;
        }
        None
    }

    /// Finds a node by the id of its name.
    pub fn find_node_by_name_id(&self, name_id: u32) -> (r: Option<u16>)
        ensures
            r == node_of_id_from(self.nodes, name_id, 0),
    {
        let ids = &self.nodes.name_map_name_ids;
        let mut i: usize = 0;
        while i < ids.len() && i < self.nodes.name_map_node_ids.len()
            invariant
                i <= ids.len(),
                *ids == self.nodes.name_map_name_ids,
                node_of_id_from(self.nodes, name_id, i as int) == node_of_id_from(
                    self.nodes,
                    name_id,
                    0,
                ),
            decreases ids.len() - i,
        {
            if ids[i] == name_id {
                return Some(self.nodes.name_map_node_ids[i]);
            }
            i += 1;
        }
        None
    }

    /// Whether a node hangs below another one.
    pub fn is_descendant_of(&self, node: u16, ancestor: u16) -> (r: bool)
        ensures
            r == descends(self.nodes.parent_ids@, node, ancestor, self.nodes.parent_ids@.len()),
    {
        let parents = &self.nodes.parent_ids;
        let mut at: u16 = node;
        let mut steps: usize = parents.len();
        while steps > 0
            invariant
                *parents == self.nodes.parent_ids,
                descends(parents@, at, ancestor, steps as nat) == descends(
                    parents@,
                    node,
                    ancestor,
                    parents@.len(),
                ),
            decreases steps,
        {
            if at as usize >= parents.len() {
                return false;
            }
            at = parents[at as usize];
            if at == ancestor {
                return true;
            }
            steps -= 1;
        }
        false
    }
}

/// Whether a bone pitches with the barrels: it is the pitch node or hangs below it.
pub open spec fn is_barrel_bone(nodes: VisualNodes, name_id: u32, pitch: u16) -> bool {
    match node_of_id_from(nodes, name_id, 0) {
        Some(n) => n == pitch || descends(nodes.parent_ids@, n, pitch, nodes.parent_ids@.len()),
        None => false,
    }
}

/// Blend indices of the barrel bones among the first `n` bones of a render set. Blend
/// indices are bytes.
pub open spec fn barrel_bones(nodes: VisualNodes, bones: Seq<u32>, pitch: u16, n: int) -> Seq<u8>
    decreases n,
{
    if n <= 0 {
        Seq::empty()
    } else {
        let before = barrel_bones(nodes, bones, pitch, n - 1);
        if is_barrel_bone(nodes, bones[n - 1], pitch) {
            before.push(((n - 1) % 256) as u8)
        } else {
            before
        }
    }
}

/// Finds the bones of the first render set that pitch with `Rotate_X`. There are none
/// if there is no such node or no render set.
pub fn barrel_bone_indices(visual: &VisualPrototype, db: &PrototypeDatabase) -> (r: Option<Vec<u8>>)
    ensures
        match node_named_from(*db, visual.nodes, "Rotate_X"@, 0) {
            Some(pitch) => if visual.render_sets@.len() == 0 {
                r is None
            } else {
                let bones = visual.render_sets@[0].node_name_ids@;
                let found = barrel_bones(visual.nodes, bones, pitch, bones.len() as int);
                match r {
                    Some(v) => v@ == found && found.len() > 0,
                    None => found.len() == 0,
                }
            },
            None => r is None,
        },
{
    let pitch: u16 = match visual.find_node_index_by_name("Rotate_X", db) {
        Some(n) => n,
        None => {
            return None;
        },
    };
    if visual.render_sets.len() == 0 {
        return None;
    }
    let bones = &visual.render_sets[0].node_name_ids;
    let mut out: Vec<u8> = Vec::new();
    let mut i: usize = 0;
    while i < bones.len()
        invariant
            i <= bones.len(),
            out@ == barrel_bones(visual.nodes, bones@, pitch, i as int),
        decreases bones.len() - i,
    {
        if let Some(n) = visual.find_node_by_name_id(bones[i]) {
            if n == pitch || visual.is_descendant_of(n, pitch) {
                out.push((i % 256) as u8);
            }
        }
        i += 1;
    }
    if out.len() == 0 {
        None
    } else {
        Some(out)
    }
}

// ---- Pitch ------------------------------------------------------------------

/// A rotation about an axis along X through a pivot, by its sine and cosine, in
/// right-handed axes.
pub open spec fn pitch(pivot: Seq<u32>, sin: u32, cos: u32) -> Seq<u32> {
    skel_ext::z_negated(
        mounts::IDENTITY_4X4@.update(5, cos).update(6, sin).update(9, single::negated(sin)).update(
            10,
            cos,
        ).update(
            13,
            arith::sum(
                transform::difference(pivot[1], arith::product(cos, pivot[1])),
                arith::product(sin, pivot[2]),
            ),
        ).update(
            14,
            transform::difference(
                arith::sum(pivot[2], arith::product(sin, pivot[1])),
                arith::product(cos, pivot[2]),
            ),
        ),
    )
}

fn make_pitch(pivot: [u32; 3], sin: u32, cos: u32) -> (r: [u32; 16])
    ensures
        r@ == pitch(pivot@, sin, cos),
{
    let mut m: [u32; 16] = mounts::IDENTITY_4X4;
    m[5] = cos;
    m[6] = sin;
    m[9] = single::negate(sin);
    m[10] = cos;
    m[13] = arith::add_singles(
        arith::subtract_singles(pivot[1], arith::multiply_singles(cos, pivot[1])),
        arith::multiply_singles(sin, pivot[2]),
    );
    m[14] = arith::subtract_singles(
        arith::add_singles(pivot[2], arith::multiply_singles(sin, pivot[1])),
        arith::multiply_singles(cos, pivot[2]),
    );
    skel_ext::negate_z_transform(m)
}

/// How the barrels of a turret are pitched.
#[derive(Debug)]
pub struct BarrelPitch {
    pub pitch_matrix: [u32; 16],
    pub barrel_bone_indices: Vec<u8>,
}

pub open spec fn opt_pitch(p: Option<BarrelPitch>) -> Option<(Seq<u32>, Seq<u8>)> {
    match p {
        Some(p) => Some((p.pitch_matrix@, p.barrel_bone_indices@)),
        None => None,
    }
}

/// The pitch of the barrels of a turret: its matrix and the bones that it applies to. A
/// turret without a `Rotate_X` node or without barrel bones has none.
pub open spec fn barrel_pitch(
    visual: VisualPrototype,
    db: PrototypeDatabase,
    rotate_x: Option<Seq<u32>>,
    sin: u32,
    cos: u32,
) -> Option<(Seq<u32>, Seq<u8>)> {
    match (rotate_x, node_named_from(db, visual.nodes, "Rotate_X"@, 0)) {
        (Some(pose), Some(node)) => if visual.render_sets@.len() == 0 {
            None
        } else {
            let bones = visual.render_sets@[0].node_name_ids@;
            let found = barrel_bones(visual.nodes, bones, node, bones.len() as int);
            if found.len() == 0 {
                None
            } else {
                Some((pitch(pose.subrange(12, 15), sin, cos), found))
            }
        },
        _ => None,
    }
}

/// Plans the pitch of the barrels of a turret. `rotate_x` is the composed transform of
/// its `Rotate_X` node; `sin` and `cos` are those of the angle.
pub fn build_barrel_pitch(
    visual: &VisualPrototype,
    db: &PrototypeDatabase,
    rotate_x: &Option<Matrix4x4>,
    sin: u32,
    cos: u32,
) -> (r: Option<BarrelPitch>)
    ensures
        opt_pitch(r) == barrel_pitch(*visual, *db, mounts::opt_matrix(*rotate_x), sin, cos),
{
    match (rotate_x, barrel_bone_indices(visual, db)) {
        (Some(pose), Some(bones)) => {
            let pivot: [u32; 3] = matrix_position(pose);
            Some(
                BarrelPitch {
                    pitch_matrix: make_pitch(pivot, sin, cos),
                    barrel_bone_indices: bones,
                },
            )
        },
        _ => None,
    }
}

/// A name that stands once in the name map is found with the node that stands beside it;
/// of several entries the first one counts.
pub proof fn first_entries_of_the_name_map_count(nodes: VisualNodes, name_id: u32, i: int, k: int)
    requires
        0 <= i <= k,
        is_named_entry(nodes, k),
        nodes.name_map_name_ids@[k] == name_id,
        forall|j: int| i <= j < k ==> (#[trigger] nodes.name_map_name_ids@[j]) != name_id,
    ensures
        node_of_id_from(nodes, name_id, i) == Some(nodes.name_map_node_ids@[k]),
    decreases k - i,
{
    if i < k {
        first_entries_of_the_name_map_count(nodes, name_id, i + 1, k);
    }
}

/// A node is found by the text of its name; of several entries the first one counts.
pub proof fn first_names_count(
    db: PrototypeDatabase,
    nodes: VisualNodes,
    name: Seq<char>,
    i: int,
    k: int,
)
    requires
        0 <= i <= k,
        is_named_entry(nodes, k),
        db.string(nodes.name_map_name_ids@[k]) == Some(name),
        forall|j: int|
            i <= j < k ==> db.string(#[trigger] nodes.name_map_name_ids@[j]) != Some(name),
    ensures
        node_named_from(db, nodes, name, i) == Some(nodes.name_map_node_ids@[k]),
    decreases k - i,
{
    if i < k {
        first_names_count(db, nodes, name, i + 1, k);
    }
}

/// A node descends from its parent and from whatever its parent descends from, and from
/// nothing else; a larger number of steps finds no fewer ancestors.
pub proof fn descent_goes_through_the_parent(
    parents: Seq<u16>,
    node: u16,
    ancestor: u16,
    steps: nat,
)
    requires
        node < parents.len(),
    ensures
        descends(parents, node, parents[node as int], steps + 1),
        descends(parents, parents[node as int], ancestor, steps) ==> descends(
            parents,
            node,
            ancestor,
            steps + 1,
        ),
        descends(parents, node, ancestor, steps + 1) ==> parents[node as int] == ancestor
            || descends(parents, parents[node as int], ancestor, steps),
        descends(parents, node, ancestor, steps) ==> descends(parents, node, ancestor, steps + 1),
    decreases steps,
{
    reveal_with_fuel(descends, 2);
    if steps > 0 && parents[node as int] < parents.len() {
        descent_goes_through_the_parent(
            parents,
            parents[node as int],
            ancestor,
            (steps - 1) as nat,
        );
    }
}

/// The barrel bones are exactly those bones that are the pitching node or descend from it,
/// by their place in the list, in order.
#[verifier::rlimit(50)]
pub proof fn barrel_bones_are_those_of_the_barrel(
    nodes: VisualNodes,
    bones: Seq<u32>,
    pitch: u16,
    n: int,
    k: int,
)
    requires
        0 <= k < n <= bones.len(),
        n <= 256,
    ensures
        barrel_bones(nodes, bones, pitch, n).contains(k as u8) <==> is_barrel_bone(
            nodes,
            bones[k],
            pitch,
        ),
        forall|i: int|
            0 <= i < barrel_bones(nodes, bones, pitch, n).len() ==> (#[trigger] barrel_bones(
                nodes,
                bones,
                pitch,
                n,
            )[i]) < n,
        forall|i: int, j: int|
            0 <= i < j < barrel_bones(nodes, bones, pitch, n).len() ==> (#[trigger] barrel_bones(
                nodes,
                bones,
                pitch,
                n,
            )[i]) < (#[trigger] barrel_bones(nodes, bones, pitch, n)[j]),
    decreases n,
{
    let now = barrel_bones(nodes, bones, pitch, n);
    let before = barrel_bones(nodes, bones, pitch, n - 1);
    if n == 1 {
        assert(before =~= Seq::empty());
    } else {
        let j = if k < n - 1 {
            k
        } else {
            0
        };
        barrel_bones_are_those_of_the_barrel(nodes, bones, pitch, n - 1, j);
    }
    let last = ((n - 1) % 256) as u8;
    assert(last == n - 1);
    if is_barrel_bone(nodes, bones[n - 1], pitch) {
        assert(now == before.push(last));
        assert(now[now.len() - 1] == last);
        if k < n - 1 {
            if before.contains(k as u8) {
                let i = choose|i: int| 0 <= i < before.len() && before[i] == k as u8;
                assert(now[i] == k as u8);
            }
            if now.contains(k as u8) {
                let i = choose|i: int| 0 <= i < now.len() && now[i] == k as u8;
                assert(before[i] == k as u8);
            }
        }
    } else {
        if k == n - 1 && now.contains(k as u8) {
            let i = choose|i: int| 0 <= i < before.len() && before[i] == k as u8;
            assert(before[i] < n - 1);
        }
    }
}

/// What a pitched barrel does to a point, with small whole numbers for the pivot, the sine
/// and the cosine: the coordinate along the axis stays, heights turn about the pivot, and
/// depths, which point the other way in the exported scene, turn with them.
#[verifier::rlimit(50)]
pub proof fn barrels_turn_across_their_axis(
    pivot: Seq<u32>,
    sin: u32,
    cos: u32,
    p: Seq<u32>,
    a: Seq<int>,
    s: int,
    c: int,
    q: Seq<int>,
)
    requires
        transform::place_is(pivot, a),
        transform::place_is(p, seq![q[0], q[1], -q[2]]),
        exact::stands_for(sin, s, 0),
        exact::stands_for(cos, c, 0),
        transform::within(a, 64),
        transform::within(q, 64),
        q.len() == 3,
        -64 <= s <= 64,
        -64 <= c <= 64,
    ensures
        transform::place_is(
            transform::transformed(pitch(pivot, sin, cos), p),
            seq![
                q[0],
                a[1] + c * (q[1] - a[1]) - s * (q[2] - a[2]),
                -(a[2] + s * (q[1] + a[1]) + c * (q[2] - a[2])),
            ],
        ),
{
    let (y, z) = (a[1], a[2]);
    assert(exact::stands_for(pivot[1], y, 0) && exact::stands_for(pivot[2], z, 0));
    assert(-64 <= y <= 64 && -64 <= z <= 64);
    assert(-64 <= q[0] <= 64 && -64 <= q[1] <= 64 && -64 <= q[2] <= 64);
    transform::products_are_bounded(c, y, 64, 64);
    transform::products_are_bounded(s, z, 64, 64);
    transform::products_are_bounded(s, y, 64, 64);
    transform::products_are_bounded(c, z, 64, 64);
    exact::products(cos, pivot[1], c, y, 0, 0);
    exact::products(sin, pivot[2], s, z, 0, 0);
    exact::products(sin, pivot[1], s, y, 0, 0);
    exact::products(cos, pivot[2], c, z, 0, 0);
    exact::differences(pivot[1], arith::product(cos, pivot[1]), y, c * y, 0);
    exact::sums(
        transform::difference(pivot[1], arith::product(cos, pivot[1])),
        arith::product(sin, pivot[2]),
        y - c * y,
        s * z,
        0,
    );
    exact::sums(pivot[2], arith::product(sin, pivot[1]), z, s * y, 0);
    exact::differences(
        arith::sum(pivot[2], arith::product(sin, pivot[1])),
        arith::product(cos, pivot[2]),
        z + s * y,
        c * z,
        0,
    );
    let u = y - c * y + s * z;
    let v = z + s * y - c * z;
    let turned = pitch(pivot, sin, cos);
    let cells = seq![1int, 0, 0, 0, 0, c, -s, 0, 0, s, c, 0, 0, u, -v, 1];
    exact::one();
    exact::zero(0);
    exact::negations(sin, s, 0);
    exact::negations(single::negated(sin), -s, 0);
    exact::negations(
        transform::difference(
            arith::sum(pivot[2], arith::product(sin, pivot[1])),
            arith::product(cos, pivot[2]),
        ),
        v,
        0,
    );
    assert forall|i: int| 0 <= i < 16 implies exact::stands_for(#[trigger] turned[i], cells[i], 0) by {
        assert(mounts::IDENTITY_4X4@[i] == if i % 5 == 0 {
            single::ONE_BITS
        } else {
            0
        });
    }
    let w = seq![q[0], q[1], -q[2]];
    transform::points_are_taken_along_the_axes(turned, p, cells, w, 0x4000, 64);
    let (x, h, d) = (q[0], q[1], q[2]);
    assert(c * (h - y) == h * c - c * y) by (nonlinear_arith);
    assert(s * (d - z) == d * s - s * z) by (nonlinear_arith);
    assert(s * (h + y) == h * s + s * y) by (nonlinear_arith);
    assert(c * (d - z) == d * c - c * z) by (nonlinear_arith);
    assert((-d) * s == -(d * s) && (-d) * c == -(d * c) && h * (-s) == -(h * s))
        by (nonlinear_arith);
    assert(x * 1 == x && x * 0 == 0 && h * 0 == 0 && (-d) * 0 == 0) by (nonlinear_arith);
    assert(transform::taken(cells, w) =~= seq![
        q[0],
        a[1] + c * (q[1] - a[1]) - s * (q[2] - a[2]),
        -(a[2] + s * (q[1] + a[1]) + c * (q[2] - a[2])),
    ]);
}

/// Barrels turn about the place of the pitching node, and the bones that turn are those of
/// the first render set; a visual without either has none.
pub proof fn barrels_turn_about_their_node(
    visual: VisualPrototype,
    db: PrototypeDatabase,
    pose: Seq<u32>,
    node: u16,
    sin: u32,
    cos: u32,
)
    requires
        pose.len() == 16,
        node_named_from(db, visual.nodes, "Rotate_X"@, 0) == Some(node),
        visual.render_sets@.len() > 0,
    ensures
        barrel_pitch(visual, db, None, sin, cos) is None,
        barrel_pitch(visual, db, Some(pose), sin, cos) matches Some(p) ==> p.0 == pitch(
            seq![pose[12], pose[13], pose[14]],
            sin,
            cos,
        ) && p.1 == barrel_bones(
            visual.nodes,
            visual.render_sets@[0].node_name_ids@,
            node,
            visual.render_sets@[0].node_name_ids@.len() as int,
        ),
        barrel_pitch(visual, db, Some(pose), sin, cos) is None <==> barrel_bones(
            visual.nodes,
            visual.render_sets@[0].node_name_ids@,
            node,
            visual.render_sets@[0].node_name_ids@.len() as int,
        ).len() == 0,
{
    assert(pose.subrange(12, 15) =~= seq![pose[12], pose[13], pose[14]]);
}

/// A bone belongs to the barrel where it is the pitching node itself or hangs from it,
/// however far below; a bone without a node does not.
pub proof fn bones_of_the_pitching_node_turn(
    nodes: VisualNodes,
    name_id: u32,
    pitch: u16,
    node: u16,
)
    ensures
        node_of_id_from(nodes, name_id, 0) == Some(pitch) ==> is_barrel_bone(nodes, name_id, pitch),
        node_of_id_from(nodes, name_id, 0) == Some(node) && node < nodes.parent_ids@.len()
            && nodes.parent_ids@[node as int] == pitch ==> is_barrel_bone(nodes, name_id, pitch),
        node_of_id_from(nodes, name_id, 0) is None ==> !is_barrel_bone(nodes, name_id, pitch),
        node_of_id_from(nodes, name_id, 0) == Some(node) && node != pitch && node
            >= nodes.parent_ids@.len() ==> !is_barrel_bone(nodes, name_id, pitch),
{
}

} // verus!
