//! What `models.bin` looks like to those who write it, and that the reader in
//! `merged_models` gives back what was written.
use vstd::prelude::*;

use crate::bytes;
use crate::models::layout;
use crate::models::merged_models;
use crate::models::merged_models::{MergedModelRecord, MergedModels};
use crate::models::visual;
use crate::models::visual::{DyeEntry, Lod, ModelPrototype, RenderSet, VisualNodes, VisualPrototype};

verus! {

/// Whether a pointer of the structure at `base` leads to some bytes. A pointer to nothing
/// may lead anywhere.
pub open spec fn leads_to(b: Seq<u8>, base: int, p: i64, s: Seq<u8>) -> bool {
    s.len() == 0 || layout::holds(b, base + p, s)
}

/// A byte that is one or zero.
pub open spec fn flag(yes: bool) -> Seq<u8> {
    if yes {
        seq![1u8]
    } else {
        seq![0u8]
    }
}

/// A skeleton: node count, then pointers to the name map's name ids, the name map's node
/// ids, the name ids, the matrices and the parent ids.
pub open spec fn skeleton(
    n: u32,
    gap: Seq<u8>,
    map_names: i64,
    map_nodes: i64,
    names: i64,
    matrices: i64,
    parents: i64,
) -> Seq<Seq<u8>> {
    seq![
        layout::le32(n),
        gap,
        layout::signed64(map_names),
        layout::signed64(map_nodes),
        layout::signed64(names),
        layout::signed64(matrices),
        layout::signed64(parents),
    ]
}

/// A render set: name, material name, vertices, indices, material path, skinned, node
/// count, and a pointer to the node names.
pub open spec fn render_set(
    name: u32,
    material: u32,
    vertices: u32,
    indices: u32,
    mfm: u64,
    skinned: bool,
    n: u8,
    gap: Seq<u8>,
    nodes: i64,
) -> Seq<Seq<u8>> {
    seq![
        layout::le32(name),
        layout::le32(material),
        layout::le32(vertices),
        layout::le32(indices),
        layout::le64(mfm),
        flag(skinned),
        seq![n],
        gap,
        layout::signed64(nodes),
    ]
}

/// A level of detail: extent, shadow, set count, and a pointer to the set names.
pub open spec fn lod(extent: u32, shadow: bool, gap: u8, n: u16, names: i64) -> Seq<Seq<u8>> {
    seq![
        layout::le32(extent),
        flag(shadow),
        seq![gap],
        layout::le16(n),
        layout::signed64(names),
    ]
}

/// A dye: matter, what it replaces, tint count, and pointers to the tint names and the
/// tint materials.
pub open spec fn dye(
    matter: u32,
    replaces: u32,
    n: u32,
    gap: Seq<u8>,
    names: i64,
    materials: i64,
) -> Seq<Seq<u8>> {
    seq![
        layout::le32(matter),
        layout::le32(replaces),
        layout::le32(n),
        gap,
        layout::signed64(names),
        layout::signed64(materials),
    ]
}

/// A model prototype inside a record: visual resource, extension count, type, animation
/// count, dye count, two pointers that the reader passes over, and a pointer to the dyes.
pub open spec fn model_proto(
    resource: u64,
    extensions: u8,
    misc_type: u8,
    animations: u8,
    dyes: u8,
    skipped: Seq<u8>,
    dye_table: i64,
) -> Seq<Seq<u8>> {
    seq![
        layout::le64(resource),
        seq![extensions],
        seq![misc_type],
        seq![animations],
        seq![dyes],
        skipped,
        layout::signed64(dye_table),
    ]
}

/// A visual prototype: skeleton, geometry path, the two water flags, set and level counts,
/// the box, and pointers to the render sets and the levels of detail.
pub open spec fn visual_proto(
    nodes: Seq<u8>,
    geometry: u64,
    underwater: bool,
    abovewater: bool,
    sets: u16,
    lods: u16,
    gap: Seq<u8>,
    min: Seq<u32>,
    gap_min: Seq<u8>,
    max: Seq<u32>,
    gap_max: Seq<u8>,
    set_table: i64,
    lod_table: i64,
) -> Seq<Seq<u8>> {
    seq![
        nodes,
        layout::le64(geometry),
        flag(underwater),
        flag(abovewater),
        layout::le16(sets),
        layout::le16(lods),
        gap,
        layout::le32s(min),
        gap_min,
        layout::le32s(max),
        gap_max,
        layout::signed64(set_table),
        layout::signed64(lod_table),
    ]
}

/// A model record: path, model prototype, visual prototype, skeleton index, first geometry
/// and geometry count.
pub open spec fn model_record(
    path: u64,
    proto: Seq<u8>,
    visual: Seq<u8>,
    skeleton: u32,
    first: u16,
    count: u16,
) -> Seq<Seq<u8>> {
    seq![
        layout::le64(path),
        proto,
        visual,
        layout::le32(skeleton),
        layout::le16(first),
        layout::le16(count),
    ]
}

/// The start of the file: model count, skeleton count, bones per model, and the offsets of
/// the records and of the skeletons.
pub open spec fn header(
    models: u32,
    skeletons: u16,
    bones: u16,
    records: i64,
    skeleton_table: i64,
) -> Seq<Seq<u8>> {
    seq![
        layout::le32(models),
        layout::le16(skeletons),
        layout::le16(bones),
        layout::signed64(records),
        layout::signed64(skeleton_table),
    ]
}

proof fn pointers_lead(b: Seq<u8>, base: int, field: int, p: i64, s: Seq<u8>)
    requires
        b.len() <= u64::MAX,
        layout::holds(b, base + field, layout::signed64(p)),
        leads_to(b, base, p, s),
        s.len() > 0,
    ensures
        merged_models::pointer_at(b, base, field) == base + p,
{
    layout::reads_signed_64(b, base + field, p);
}

proof fn pointed_16s(b: Seq<u8>, base: int, field: int, p: i64, s: Seq<u16>)
    requires
        b.len() <= u64::MAX,
        layout::holds(b, base + field, layout::signed64(p)),
        leads_to(b, base, p, layout::le16s(s)),
    ensures
        bytes::u16s_at(b, merged_models::pointer_at(b, base, field), s.len() as int) == s,
        merged_models::array_fault(
            b,
            merged_models::pointer_at(b, base, field),
            s.len() as int,
            2,
        ) is None,
{
    if s.len() > 0 {
        assert(layout::le16s(s).len() > 0);
        pointers_lead(b, base, field, p, layout::le16s(s));
        layout::reads_16s(b, base + p, s);
    } else {
        assert(bytes::u16s_at(b, merged_models::pointer_at(b, base, field), 0) =~= s);
    }
}

proof fn pointed_32s(b: Seq<u8>, base: int, field: int, p: i64, s: Seq<u32>)
    requires
        b.len() <= u64::MAX,
        layout::holds(b, base + field, layout::signed64(p)),
        leads_to(b, base, p, layout::le32s(s)),
    ensures
        bytes::u32s_at(b, merged_models::pointer_at(b, base, field), s.len() as int) == s,
        merged_models::array_fault(
            b,
            merged_models::pointer_at(b, base, field),
            s.len() as int,
            4,
        ) is None,
{
    if s.len() > 0 {
        assert(layout::le32s(s).len() > 0);
        pointers_lead(b, base, field, p, layout::le32s(s));
        layout::reads_32s(b, base + p, s);
    } else {
        assert(bytes::u32s_at(b, merged_models::pointer_at(b, base, field), 0) =~= s);
    }
}

proof fn pointed_64s(b: Seq<u8>, base: int, field: int, p: i64, s: Seq<u64>)
    requires
        b.len() <= u64::MAX,
        layout::holds(b, base + field, layout::signed64(p)),
        leads_to(b, base, p, layout::le64s(s)),
    ensures
        bytes::u64s_at(b, merged_models::pointer_at(b, base, field), s.len() as int) == s,
        merged_models::array_fault(
            b,
            merged_models::pointer_at(b, base, field),
            s.len() as int,
            8,
        ) is None,
{
    if s.len() > 0 {
        assert(layout::le64s(s).len() > 0);
        pointers_lead(b, base, field, p, layout::le64s(s));
        layout::reads_64s(b, base + p, s);
    } else {
        assert(bytes::u64s_at(b, merged_models::pointer_at(b, base, field), 0) =~= s);
    }
}

proof fn pointed_matrices(b: Seq<u8>, base: int, field: int, p: i64, s: Seq<Seq<u32>>)
    requires
        b.len() <= u64::MAX,
        forall|i: int| 0 <= i < s.len() ==> (#[trigger] s[i]).len() == 16,
        layout::holds(b, base + field, layout::signed64(p)),
        leads_to(b, base, p, layout::matrices(s)),
    ensures
        visual::matrices_at(b, merged_models::pointer_at(b, base, field), s.len() as int) == s,
        merged_models::array_fault(
            b,
            merged_models::pointer_at(b, base, field),
            s.len() as int,
            64,
        ) is None,
{
    if s.len() > 0 {
        layout::matrices_have_a_fixed_size(s.last());
        assert(layout::matrices(s).len() > 0);
        pointers_lead(b, base, field, p, layout::matrices(s));
        layout::reads_matrices(b, base + p, s);
    } else {
        assert(visual::matrices_at(b, merged_models::pointer_at(b, base, field), 0) =~= s);
    }
}

/// A skeleton is read as it was written: each array comes back in its own field, and no
/// file that holds them all is refused.
pub proof fn skeletons_are_read_as_written(
    b: Seq<u8>,
    base: int,
    gap: Seq<u8>,
    pointers: (i64, i64, i64, i64, i64),
    map_names: Seq<u32>,
    map_nodes: Seq<u16>,
    names: Seq<u32>,
    matrices: Seq<Seq<u32>>,
    parents: Seq<u16>,
)
    requires
        b.len() <= u64::MAX,
        gap.len() == 4,
        names.len() <= u32::MAX,
        map_names.len() == names.len(),
        map_nodes.len() == names.len(),
        matrices.len() == names.len(),
        parents.len() == names.len(),
        forall|i: int| 0 <= i < matrices.len() ==> (#[trigger] matrices[i]).len() == 16,
        layout::holds(
            b,
            base,
            layout::joined(
                skeleton(
                    names.len() as u32,
                    gap,
                    pointers.0,
                    pointers.1,
                    pointers.2,
                    pointers.3,
                    pointers.4,
                ),
            ),
        ),
        leads_to(b, base, pointers.0, layout::le32s(map_names)),
        leads_to(b, base, pointers.1, layout::le16s(map_nodes)),
        leads_to(b, base, pointers.2, layout::le32s(names)),
        leads_to(b, base, pointers.3, layout::matrices(matrices)),
        leads_to(b, base, pointers.4, layout::le16s(parents)),
    ensures
        merged_models::nodes_fault(b, base) is None,
        forall|read: VisualNodes| #[trigger]
            merged_models::nodes_stand_at(read, b, base) ==> {
                &&& read.name_map_name_ids@ == map_names
                &&& read.name_map_node_ids@ == map_nodes
                &&& read.name_ids@ == names
                &&& visual::matrix_views(read.matrices@) == matrices
                &&& read.parent_ids@ == parents
            },
{
    let f = skeleton(
        names.len() as u32,
        gap,
        pointers.0,
        pointers.1,
        pointers.2,
        pointers.3,
        pointers.4,
    );
    layout::numbers_have_fixed_sizes();
    reveal_with_fuel(layout::offset, 8);
    layout::field_stands(b, base, f, 0);
    layout::field_stands(b, base, f, 2);
    layout::field_stands(b, base, f, 3);
    layout::field_stands(b, base, f, 4);
    layout::field_stands(b, base, f, 5);
    layout::field_stands(b, base, f, 6);
    layout::reads_32(b, base, names.len() as u32);
    pointed_32s(b, base, 0x08, pointers.0, map_names);
    pointed_16s(b, base, 0x10, pointers.1, map_nodes);
    pointed_32s(b, base, 0x18, pointers.2, names);
    pointed_matrices(b, base, 0x20, pointers.3, matrices);
    pointed_16s(b, base, 0x28, pointers.4, parents);
}

/// A render set is read as it was written.
#[verifier::rlimit(50)]
pub proof fn render_sets_are_read_as_written(
    b: Seq<u8>,
    base: int,
    ids: (u32, u32, u32, u32, u64),
    skinned: bool,
    gap: Seq<u8>,
    p: i64,
    nodes: Seq<u32>,
)
    requires
        b.len() <= u64::MAX,
        gap.len() == 6,
        nodes.len() <= 0xFF,
        layout::holds(
            b,
            base,
            layout::joined(
                render_set(
                    ids.0,
                    ids.1,
                    ids.2,
                    ids.3,
                    ids.4,
                    skinned,
                    nodes.len() as u8,
                    gap,
                    p,
                ),
            ),
        ),
        leads_to(b, base, p, layout::le32s(nodes)),
    ensures
        merged_models::render_set_fault(b, base) is None,
        forall|read: RenderSet| #[trigger]
            merged_models::render_set_stands_at(read, b, base) ==> {
                &&& read.name_id == ids.0
                &&& read.material_name_id == ids.1
                &&& read.vertices_mapping_id == ids.2
                &&& read.indices_mapping_id == ids.3
                &&& read.material_mfm_path_id == ids.4
                &&& read.skinned == skinned
                &&& read.node_name_ids@ == nodes
            },
{
    let f = render_set(
        ids.0,
        ids.1,
        ids.2,
        ids.3,
        ids.4,
        skinned,
        nodes.len() as u8,
        gap,
        p,
    );
    layout::numbers_have_fixed_sizes();
    reveal_with_fuel(layout::offset, 10);
    layout::field_stands(b, base, f, 0);
    layout::field_stands(b, base, f, 1);
    layout::field_stands(b, base, f, 2);
    layout::field_stands(b, base, f, 3);
    layout::field_stands(b, base, f, 4);
    layout::field_stands(b, base, f, 5);
    layout::field_stands(b, base, f, 6);
    layout::field_stands(b, base, f, 8);
    layout::reads_32(b, base, ids.0);
    layout::reads_32(b, base + 0x04, ids.1);
    layout::reads_32(b, base + 0x08, ids.2);
    layout::reads_32(b, base + 0x0C, ids.3);
    layout::reads_64(b, base + 0x10, ids.4);
    assert(b[base + 0x18 + 0] == f[5][0]);
    assert(b[base + 0x19 + 0] == f[6][0]);
    pointed_32s(b, base, 0x20, p, nodes);
}

/// A level of detail is read as it was written.
pub proof fn lods_are_read_as_written(
    b: Seq<u8>,
    base: int,
    extent: u32,
    shadow: bool,
    gap: u8,
    p: i64,
    names: Seq<u32>,
)
    requires
        b.len() <= u64::MAX,
        names.len() <= 0xFFFF,
        layout::holds(
            b,
            base,
            layout::joined(lod(extent, shadow, gap, names.len() as u16, p)),
        ),
        leads_to(b, base, p, layout::le32s(names)),
    ensures
        merged_models::lod_fault(b, base) is None,
        forall|read: Lod| #[trigger]
            merged_models::lod_stands_at(read, b, base) ==> {
                &&& read.extent == extent
                &&& read.casts_shadow == shadow
                &&& read.render_set_names@ == names
            },
{
    let f = lod(extent, shadow, gap, names.len() as u16, p);
    layout::numbers_have_fixed_sizes();
    reveal_with_fuel(layout::offset, 6);
    layout::field_stands(b, base, f, 0);
    layout::field_stands(b, base, f, 1);
    layout::field_stands(b, base, f, 3);
    layout::field_stands(b, base, f, 4);
    layout::reads_32(b, base, extent);
    assert(b[base + 0x04 + 0] == f[1][0]);
    layout::reads_16(b, base + 0x06, names.len() as u16);
    pointed_32s(b, base, 0x08, p, names);
}

/// A dye is read as it was written.
pub proof fn dyes_are_read_as_written(
    b: Seq<u8>,
    base: int,
    matter: u32,
    replaces: u32,
    gap: Seq<u8>,
    pointers: (i64, i64),
    names: Seq<u32>,
    materials: Seq<u64>,
)
    requires
        b.len() <= u64::MAX,
        gap.len() == 4,
        names.len() <= u32::MAX,
        materials.len() == names.len(),
        layout::holds(
            b,
            base,
            layout::joined(
                dye(matter, replaces, names.len() as u32, gap, pointers.0, pointers.1),
            ),
        ),
        leads_to(b, base, pointers.0, layout::le32s(names)),
        leads_to(b, base, pointers.1, layout::le64s(materials)),
    ensures
        merged_models::dye_fault(b, base) is None,
        forall|read: DyeEntry| #[trigger]
            merged_models::dye_stands_at(read, b, base) ==> {
                &&& read.matter_id == matter
                &&& read.replaces_id == replaces
                &&& read.tint_name_ids@ == names
                &&& read.tint_material_ids@ == materials
            },
{
    let f = dye(matter, replaces, names.len() as u32, gap, pointers.0, pointers.1);
    layout::numbers_have_fixed_sizes();
    reveal_with_fuel(layout::offset, 7);
    layout::field_stands(b, base, f, 0);
    layout::field_stands(b, base, f, 1);
    layout::field_stands(b, base, f, 2);
    layout::field_stands(b, base, f, 4);
    layout::field_stands(b, base, f, 5);
    layout::reads_32(b, base, matter);
    layout::reads_32(b, base + 0x04, replaces);
    layout::reads_32(b, base + 0x08, names.len() as u32);
    pointed_32s(b, base, 0x10, pointers.0, names);
    pointed_64s(b, base, 0x18, pointers.1, materials);
}

/// A model prototype is read as it was written, with each dye taken from its place in the
/// table of dyes.
pub proof fn model_protos_are_read_as_written(
    b: Seq<u8>,
    base: int,
    resource: u64,
    extensions: u8,
    misc_type: u8,
    animations: u8,
    dyes: u8,
    skipped: Seq<u8>,
    p: i64,
)
    requires
        b.len() <= u64::MAX,
        skipped.len() == 0x14,
        layout::holds(
            b,
            base,
            layout::joined(
                model_proto(resource, extensions, misc_type, animations, dyes, skipped, p),
            ),
        ),
        0 <= base + p <= u64::MAX,
    ensures
        forall|read: ModelPrototype| #[trigger]
            merged_models::model_proto_stands_at(read, b, base) ==> {
                &&& read.visual_resource_id == resource
                &&& read.misc_type == misc_type
                &&& read.dyes@.len() == dyes
                &&& forall|i: int|
                    0 <= i < dyes ==> merged_models::dye_stands_at(
                        #[trigger] read.dyes@[i],
                        b,
                        base + p + 0x20 * i,
                    )
            },
{
    let f = model_proto(resource, extensions, misc_type, animations, dyes, skipped, p);
    layout::numbers_have_fixed_sizes();
    reveal_with_fuel(layout::offset, 8);
    layout::field_stands(b, base, f, 0);
    layout::field_stands(b, base, f, 2);
    layout::field_stands(b, base, f, 4);
    layout::field_stands(b, base, f, 6);
    layout::reads_64(b, base, resource);
    assert(b[base + 0x09 + 0] == f[2][0]);
    assert(b[base + 0x0B + 0] == f[4][0]);
    layout::reads_signed_64(b, base + 0x20, p);
}

/// A visual prototype is read as it was written, with each render set and each level of
/// detail taken from its place in its table.
#[verifier::rlimit(50)]
pub proof fn visual_protos_are_read_as_written(
    b: Seq<u8>,
    base: int,
    nodes: Seq<u8>,
    geometry: u64,
    water: (bool, bool),
    sets: u16,
    lods: u16,
    gaps: (Seq<u8>, Seq<u8>, Seq<u8>),
    min: Seq<u32>,
    max: Seq<u32>,
    pointers: (i64, i64),
)
    requires
        b.len() <= u64::MAX,
        nodes.len() == 0x30,
        gaps.0.len() == 2,
        gaps.1.len() == 4,
        gaps.2.len() == 4,
        min.len() == 3,
        max.len() == 3,
        layout::holds(
            b,
            base,
            layout::joined(
                visual_proto(
                    nodes,
                    geometry,
                    water.0,
                    water.1,
                    sets,
                    lods,
                    gaps.0,
                    min,
                    gaps.1,
                    max,
                    gaps.2,
                    pointers.0,
                    pointers.1,
                ),
            ),
        ),
        0 <= base + pointers.0 <= u64::MAX,
        0 <= base + pointers.1 <= u64::MAX,
    ensures
        layout::holds(b, base, nodes),
        forall|read: VisualPrototype| #[trigger]
            merged_models::visual_stands_at(read, b, base) ==> {
                &&& merged_models::nodes_stand_at(read.nodes, b, base)
                &&& read.merged_geometry_path_id == geometry
                &&& read.underwater_model == water.0
                &&& read.abovewater_model == water.1
                &&& read.bounding_box.min@ == min
                &&& read.bounding_box.max@ == max
                &&& read.render_sets@.len() == sets
                &&& forall|i: int|
                    0 <= i < sets ==> merged_models::render_set_stands_at(
                        #[trigger] read.render_sets@[i],
                        b,
                        base + pointers.0 + 0x28 * i,
                    )
                &&& read.lods@.len() == lods
                &&& forall|i: int|
                    0 <= i < lods ==> merged_models::lod_stands_at(
                        #[trigger] read.lods@[i],
                        b,
                        base + pointers.1 + 0x10 * i,
                    )
            },
{
    let f = visual_proto(
        nodes,
        geometry,
        water.0,
        water.1,
        sets,
        lods,
        gaps.0,
        min,
        gaps.1,
        max,
        gaps.2,
        pointers.0,
        pointers.1,
    );
    layout::numbers_have_fixed_sizes();
    layout::vectors_have_fixed_sizes(min);
    layout::vectors_have_fixed_sizes(max);
    assert(layout::offset(f, 0) == 0);
    assert(layout::offset(f, 1) == 0x30);
    assert(layout::offset(f, 2) == 0x38);
    assert(layout::offset(f, 3) == 0x39);
    assert(layout::offset(f, 4) == 0x3A);
    assert(layout::offset(f, 5) == 0x3C);
    assert(layout::offset(f, 6) == 0x3E);
    assert(layout::offset(f, 7) == 0x40);
    assert(layout::offset(f, 8) == 0x4C);
    assert(layout::offset(f, 9) == 0x50);
    assert(layout::offset(f, 10) == 0x5C);
    assert(layout::offset(f, 11) == 0x60);
    assert(layout::offset(f, 12) == 0x68);
    layout::field_stands(b, base, f, 0);
    layout::field_stands(b, base, f, 1);
    layout::field_stands(b, base, f, 2);
    layout::field_stands(b, base, f, 3);
    layout::field_stands(b, base, f, 4);
    layout::field_stands(b, base, f, 5);
    layout::field_stands(b, base, f, 7);
    layout::field_stands(b, base, f, 9);
    layout::field_stands(b, base, f, 11);
    layout::field_stands(b, base, f, 12);
    layout::reads_64(b, base + 0x30, geometry);
    assert(b[base + 0x38 + 0] == f[2][0]);
    assert(b[base + 0x39 + 0] == f[3][0]);
    layout::reads_16(b, base + 0x3A, sets);
    layout::reads_16(b, base + 0x3C, lods);
    layout::reads_32s(b, base + 0x40, min);
    layout::reads_32s(b, base + 0x50, max);
    layout::reads_signed_64(b, base + 0x60, pointers.0);
    layout::reads_signed_64(b, base + 0x68, pointers.1);
}

/// A model record is read as it was written: the two prototypes are those that stand in
/// it, one after the other.
pub proof fn model_records_are_read_as_written(
    b: Seq<u8>,
    base: int,
    path: u64,
    proto: Seq<u8>,
    visual: Seq<u8>,
    skeleton: u32,
    first: u16,
    count: u16,
)
    requires
        proto.len() == 0x28,
        visual.len() == 0x70,
        layout::holds(
            b,
            base,
            layout::joined(model_record(path, proto, visual, skeleton, first, count)),
        ),
    ensures
        layout::holds(b, base + 0x08, proto),
        layout::holds(b, base + 0x30, visual),
        forall|read: MergedModelRecord| #[trigger]
            merged_models::model_stands_at(read, b, base) ==> {
                &&& read.path_id == path
                &&& merged_models::model_proto_stands_at(read.model_proto, b, base + 0x08)
                &&& merged_models::visual_stands_at(read.visual_proto, b, base + 0x30)
                &&& read.skeleton_proto_index == skeleton
                &&& read.render_set_geometry_start_idx == first
                &&& read.render_set_geometry_count == count
            },
{
    let f = model_record(path, proto, visual, skeleton, first, count);
    layout::numbers_have_fixed_sizes();
    reveal_with_fuel(layout::offset, 7);
    layout::field_stands(b, base, f, 0);
    layout::field_stands(b, base, f, 1);
    layout::field_stands(b, base, f, 2);
    layout::field_stands(b, base, f, 3);
    layout::field_stands(b, base, f, 4);
    layout::field_stands(b, base, f, 5);
    layout::reads_64(b, base, path);
    layout::reads_32(b, base + 0xA0, skeleton);
    layout::reads_16(b, base + 0xA4, first);
    layout::reads_16(b, base + 0xA6, count);
}

/// The start of a model file is read as it was written, and each record and each skeleton
/// is taken from its place in its table.
pub proof fn headers_are_read_as_written(
    b: Seq<u8>,
    models: u32,
    skeletons: u16,
    bones: u16,
    records: i64,
    skeleton_table: i64,
)
    requires
        layout::holds(
            b,
            0,
            layout::joined(header(models, skeletons, bones, records, skeleton_table)),
        ),
        0 <= records,
        0 <= skeleton_table,
    ensures
        forall|read: MergedModels| #[trigger]
            merged_models::contents_stand(read, b) ==> {
                &&& read.model_bone_count == bones
                &&& read.models@.len() == models
                &&& forall|i: int|
                    0 <= i < models ==> merged_models::model_stands_at(
                        #[trigger] read.models@[i],
                        b,
                        records + 0xA8 * i,
                    )
                &&& read.skeletons@.len() == skeletons
                &&& forall|i: int|
                    0 <= i < skeletons ==> merged_models::nodes_stand_at(
                        (#[trigger] read.skeletons@[i]).nodes,
                        b,
                        skeleton_table + 0x30 * i,
                    )
            },
{
    let f = header(models, skeletons, bones, records, skeleton_table);
    layout::numbers_have_fixed_sizes();
    reveal_with_fuel(layout::offset, 6);
    layout::field_stands(b, 0, f, 0);
    layout::field_stands(b, 0, f, 1);
    layout::field_stands(b, 0, f, 2);
    layout::field_stands(b, 0, f, 3);
    layout::field_stands(b, 0, f, 4);
    layout::reads_32(b, 0, models);
    layout::reads_16(b, 4, skeletons);
    layout::reads_16(b, 6, bones);
    layout::reads_signed_64(b, 0x08, records);
    layout::reads_signed_64(b, 0x10, skeleton_table);
}

/// An array is refused where its last item does not end inside the file, and nowhere else;
/// an array without items is never refused.
pub proof fn cut_arrays_are_refused(b: Seq<u8>, at: u64, items: int, size: int)
    requires
        0 <= items,
        0 < size,
    ensures
        items == 0 ==> merged_models::array_fault(b, at as int, items, size) is None,
        items > 0 ==> (merged_models::array_fault(b, at as int, items, size) is None <==> at + (items
            - 1) * size + size <= b.len()),
        merged_models::array_fault(b, at as int, items, size) matches Some(f) ==> f
            == (merged_models::RecordFault::ArrayTooShort { offset: at }),
{
    assert((items - 1) * size + size == items * size) by (nonlinear_arith);
}

} // verus!
