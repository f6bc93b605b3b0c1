//! What `space.bin` looks like to those who write it, and that the reader in `space` gives
//! back what was written.
use vstd::prelude::*;

use crate::bytes;
use crate::models::layout;
use crate::models::material::{PropertyType, PropertyValue};
use crate::models::space;
use crate::models::space::{
    SpaceInstance, SpaceInstances, SpaceObstacle, SpaceParticle, SpacePointLight,
    SpaceProbe, SpaceRecord, SpaceStaticDecal, SpaceUserObject,
};
use crate::models::transform;
use crate::models::visual;
use crate::text;

verus! {

/// A text as a record refers to it: length with the terminator, and a pointer.
pub open spec fn descriptor(len: u64, p: i64) -> Seq<u8> {
    layout::le64(len) + layout::signed64(p)
}

/// Whether the descriptor at `base` is that of a terminated text.
pub open spec fn refers_to(b: Seq<u8>, base: int, p: i64, s: Seq<u8>) -> bool {
    &&& s.len() < u64::MAX
    &&& layout::holds(b, base, descriptor((s.len() + 1) as u64, p))
    &&& layout::holds(b, base + p, s.push(0))
}

/// A placed model: transform, identifier, resource, landscape, dye count, material count,
/// quality, and pointers to the dyes and the materials.
pub open spec fn instance(
    matrix: Seq<u32>,
    guid: Seq<u8>,
    resource: u64,
    landscape: u8,
    dyes: u8,
    materials: u8,
    quality: u8,
    gap: Seq<u8>,
    dye_table: i64,
    material_table: i64,
) -> Seq<Seq<u8>> {
    seq![
        layout::le32s(matrix),
        guid,
        layout::le64(resource),
        seq![landscape],
        seq![dyes],
        seq![materials],
        seq![quality],
        gap,
        layout::signed64(dye_table),
        layout::signed64(material_table),
    ]
}

/// An obstacle: transform, model index, collision model index, one number that nothing
/// uses, and the grid cells of two corners.
pub open spec fn obstacle(
    matrix: Seq<u32>,
    model: u16,
    collision: u16,
    unused: u32,
    min: (i32, i32),
    max: (i32, i32),
) -> Seq<Seq<u8>> {
    seq![
        layout::le32s(matrix),
        layout::le16(model),
        layout::le16(collision),
        layout::le32(unused),
        layout::signed32(min.0),
        layout::signed32(min.1),
        layout::signed32(max.0),
        layout::signed32(max.1),
    ]
}

/// A particle emitter: transform, identifier, resource, intensity count, and a pointer to
/// the intensities.
pub open spec fn particle(
    matrix: Seq<u32>,
    guid: Seq<u8>,
    resource: u64,
    n: u32,
    gap: Seq<u8>,
    p: i64,
) -> Seq<Seq<u8>> {
    seq![
        layout::le32s(matrix),
        guid,
        layout::le64(resource),
        layout::le32(n),
        gap,
        layout::signed64(p),
    ]
}

/// A point light: transform, bytes that nothing uses, colour, place, radius and quality.
pub open spec fn point_light(
    matrix: Seq<u32>,
    unused: Seq<u8>,
    color: Seq<u32>,
    place: Seq<u32>,
    gap: Seq<u8>,
    radius: u32,
    quality: u32,
) -> Seq<Seq<u8>> {
    seq![
        layout::le32s(matrix),
        unused,
        layout::le32s(color),
        layout::le32s(place),
        gap,
        layout::le32(radius),
        layout::le32(quality),
    ]
}

/// A probe: transform, identifier, name, resolution, and two flags.
pub open spec fn probe(
    matrix: Seq<u32>,
    guid: Seq<u8>,
    name: Seq<u8>,
    resolution: u32,
    gap: Seq<u8>,
    main: u8,
    full: u8,
) -> Seq<Seq<u8>> {
    seq![
        layout::le32s(matrix),
        guid,
        name,
        layout::le32(resolution),
        gap,
        seq![main],
        seq![full],
    ]
}

/// A static decal: eight numbers, a pointer to the textures, and the transform.
pub open spec fn static_decal(numbers: Seq<u32>, textures: i64, matrix: Seq<u32>) -> Seq<Seq<u8>> {
    seq![layout::le32s(numbers), layout::signed64(textures), layout::le32s(matrix)]
}

/// A user object: transform, identifier, type and properties.
pub open spec fn user_object(
    matrix: Seq<u32>,
    guid: Seq<u8>,
    kind: Seq<u8>,
    properties: Seq<u8>,
) -> Seq<Seq<u8>> {
    seq![layout::le32s(matrix), guid, kind, properties]
}

/// A material of one placed model: property count, shader, pointers to the property names,
/// the property codes and the first numbers, and the hash.
pub open spec fn material(
    n: u16,
    gaps: (Seq<u8>, Seq<u8>, Seq<u8>, Seq<u8>),
    shader: u32,
    names: i64,
    codes: i64,
    numbers: i64,
    hash: u64,
) -> Seq<Seq<u8>> {
    seq![
        layout::le16(n),
        gaps.0,
        layout::le32(shader),
        gaps.1,
        layout::signed64(names),
        layout::signed64(codes),
        gaps.2,
        layout::signed64(numbers),
        gaps.3,
        layout::le64(hash),
    ]
}

/// Dyes one after the other: the material, then the tint for it.
pub open spec fn dyes(s: Seq<(u32, u32)>) -> Seq<u8>
    decreases s.len(),
{
    if s.len() == 0 {
        Seq::empty()
    } else {
        dyes(s.drop_last()) + (layout::le32(s.last().0) + layout::le32(s.last().1))
    }
}

/// A text is read as it was written, without its terminator.
pub proof fn texts_are_read_as_written(b: Seq<u8>, base: int, p: i64, s: Seq<u8>)
    requires
        refers_to(b, base, p, s),
    ensures
        space::text_at(b, base) == Some(text::utf8_lossy(s)),
{
    let len = (s.len() + 1) as u64;
    layout::numbers_have_fixed_sizes();
    layout::halves_stand(b, base, layout::le64(len), layout::signed64(p));
    layout::reads_64(b, base, len);
    layout::reads_signed_64(b, base + 8, p);
    let stored = b.subrange(base + p, base + p + len);
    assert forall|i: int| 0 <= i < len implies stored[i] == s.push(0)[i] by {
        assert(b[base + p + i] == s.push(0)[i]);
    }
    assert(stored =~= s.push(0));
    assert(stored.drop_last() =~= s);
}

/// No text is read where none was written.
pub proof fn absent_texts_are_read_as_none(b: Seq<u8>, base: int, p: i64)
    requires
        layout::holds(b, base, descriptor(0, p)),
    ensures
        space::text_at(b, base) is None,
{
    layout::numbers_have_fixed_sizes();
    layout::halves_stand(b, base, layout::le64(0), layout::signed64(p));
    layout::reads_64(b, base, 0);
}

proof fn written_dyes(b: Seq<u8>, at: int, s: Seq<(u32, u32)>)
    requires
        layout::holds(b, at, dyes(s)),
    ensures
        dyes(s).len() == 8 * s.len(),
        forall|i: int|
            0 <= i < s.len() ==> bytes::u32_at(b, at + 8 * i) == (#[trigger] s[i]).0
                && bytes::u32_at(b, at + 8 * i + 4) == s[i].1,
    decreases s.len(),
{
    if s.len() > 0 {
        let rest = s.drop_last();
        let (x, y) = (layout::le32(s.last().0), layout::le32(s.last().1));
        layout::numbers_have_fixed_sizes();
        layout::halves_stand(b, at, dyes(rest), x + y);
        written_dyes(b, at, rest);
        layout::halves_stand(b, at + 8 * rest.len(), x, y);
        layout::reads_32(b, at + 8 * rest.len(), s.last().0);
        layout::reads_32(b, at + 8 * rest.len() + 4, s.last().1);
        assert forall|i: int| 0 <= i < s.len() implies bytes::u32_at(b, at + 8 * i) == (
        #[trigger] s[i]).0 && bytes::u32_at(b, at + 8 * i + 4) == s[i].1 by {
            if i < rest.len() {
                assert(rest[i] == s[i]);
            }
        }
    }
}

/// A placed model is read as it was written. Its resource is that of the record, whatever
/// its identifier refers to; no other bytes of the record have a part in it.
#[verifier::rlimit(50)]
pub proof fn instances_are_read_as_written(
    b: Seq<u8>,
    base: int,
    matrix: Seq<u32>,
    guid: Seq<u8>,
    resource: u64,
    landscape: u8,
    tints: Seq<(u32, u32)>,
    materials: u8,
    quality: u8,
    gap: Seq<u8>,
    dye_table: i64,
    material_table: i64,
)
    requires
        matrix.len() == 16,
        guid.len() == 0x10,
        gap.len() == 4,
        tints.len() <= 0xFF,
        layout::holds(
            b,
            base,
            layout::joined(
                instance(
                    matrix,
                    guid,
                    resource,
                    landscape,
                    tints.len() as u8,
                    materials,
                    quality,
                    gap,
                    dye_table,
                    material_table,
                ),
            ),
        ),
        layout::holds(b, base + dye_table, dyes(tints)),
    ensures
        layout::holds(b, base + 0x40, guid),
        forall|read: SpaceInstance| #[trigger]
            read.stands_at(b, base) ==> {
                &&& read.transform@ == matrix
                &&& text::opt_text(read.stable_guid) == space::text_at(b, base + 0x40)
                &&& read.path_id == resource
                &&& read.is_landscape == (landscape != 0)
                &&& read.min_quality_level == quality
                &&& read.model_dyes@.len() == tints.len()
                &&& forall|i: int|
                    0 <= i < tints.len() ==> (#[trigger] read.model_dyes@[i]).matter_id
                        == tints[i].0 && read.model_dyes@[i].replaces_id == tints[i].1
                &&& read.material_instance_count == materials
            },
{
    let f = instance(
        matrix,
        guid,
        resource,
        landscape,
        tints.len() as u8,
        materials,
        quality,
        gap,
        dye_table,
        material_table,
    );
    layout::numbers_have_fixed_sizes();
    layout::matrices_have_a_fixed_size(matrix);
    assert(layout::offset(f, 0) == 0);
    assert(layout::offset(f, 1) == 0x40);
    assert(layout::offset(f, 2) == 0x50);
    assert(layout::offset(f, 3) == 0x58);
    assert(layout::offset(f, 4) == 0x59);
    assert(layout::offset(f, 5) == 0x5a);
    assert(layout::offset(f, 6) == 0x5b);
    assert(layout::offset(f, 7) == 0x5c);
    assert(layout::offset(f, 8) == 0x60);
    layout::field_stands(b, base, f, 0);
    layout::field_stands(b, base, f, 1);
    layout::field_stands(b, base, f, 2);
    layout::field_stands(b, base, f, 3);
    layout::field_stands(b, base, f, 4);
    layout::field_stands(b, base, f, 5);
    layout::field_stands(b, base, f, 6);
    layout::field_stands(b, base, f, 8);
    layout::reads_matrix(b, base, matrix);
    layout::reads_64(b, base + 0x50, resource);
    assert(b[base + 0x58 + 0] == f[3][0]);
    assert(b[base + 0x59 + 0] == f[4][0]);
    assert(b[base + 0x5a + 0] == f[5][0]);
    assert(b[base + 0x5b + 0] == f[6][0]);
    layout::reads_signed_64(b, base + 0x60, dye_table);
    written_dyes(b, base + dye_table, tints);
    let read = space::dyes_at(b, base);
    assert(read.len() == tints.len());
    assert forall|i: int| 0 <= i < tints.len() implies (#[trigger] read[i]).matter_id == tints[i].0
        && read[i].replaces_id == tints[i].1 by {
        assert(tints[i] == tints[i]);
    }
}

/// The resource of a placed model does not depend on its identifier: two records that
/// differ in nothing else have the same resource.
pub proof fn resources_do_not_depend_on_identifiers(
    one: Seq<u8>,
    other: Seq<u8>,
    base: int,
    first: SpaceInstance,
    second: SpaceInstance,
)
    requires
        0 <= base,
        base + 0x70 <= one.len(),
        base + 0x70 <= other.len(),
        forall|i: int|
            (base <= i < base + 0x40 || base + 0x50 <= i < base + 0x70) ==> #[trigger] one[i]
                == other[i],
        first.stands_at(one, base),
        second.stands_at(other, base),
    ensures
        first.transform@ == second.transform@,
        first.path_id == second.path_id,
        first.is_landscape == second.is_landscape,
        first.min_quality_level == second.min_quality_level,
        first.material_instance_count == second.material_instance_count,
{
    assert(visual::matrix_at(one, base) =~= visual::matrix_at(other, base));
}

/// Placed models that refer to different resources are told apart.
pub proof fn resources_are_told_apart(
    one: Seq<u8>,
    other: Seq<u8>,
    at: int,
    to: int,
    a: u64,
    c: u64,
    first: SpaceInstance,
    second: SpaceInstance,
)
    requires
        a != c,
        layout::holds(one, at + 0x50, layout::le64(a)),
        layout::holds(other, to + 0x50, layout::le64(c)),
        first.stands_at(one, at),
        second.stands_at(other, to),
    ensures
        first.path_id != second.path_id,
{
    layout::reads_64(one, at + 0x50, a);
    layout::reads_64(other, to + 0x50, c);
}

/// The materials of a placed model are those of its table, in order, but for those whose
/// own tables do not end inside the file.
pub proof fn materials_are_read_in_order(b: Seq<u8>, base: int, n: u8, p: i64)
    requires
        0 <= base,
        base + 0x70 <= b.len(),
        layout::holds(b, base + 0x5a, seq![n]),
        layout::holds(b, base + 0x68, layout::signed64(p)),
        0 <= base + p,
        base + p + 0x70 * n <= b.len(),
        forall|i: int| 0 <= i < n ==> #[trigger] space::material_at(b, base + p + 0x70 * i) is Some,
    ensures
        space::materials_at(b, base).len() == n,
        forall|i: int|
            0 <= i < n ==> Some(#[trigger] space::materials_at(b, base)[i]) == space::material_at(
                b,
                base + p + 0x70 * i,
            ),
{
    assert(b[base + 0x5a + 0] == seq![n][0]);
    layout::reads_signed_64(b, base + 0x68, p);
    assert(n * 0x70 == 0x70 * n);
    materials_from_are_read_in_order(b, base + p, n as int);
}

proof fn materials_from_are_read_in_order(b: Seq<u8>, at: int, n: int)
    requires
        0 <= n,
        forall|i: int| 0 <= i < n ==> #[trigger] space::material_at(b, at + 0x70 * i) is Some,
    ensures
        space::materials_from(b, at, n).len() == n,
        forall|i: int|
            0 <= i < n ==> Some(#[trigger] space::materials_from(b, at, n)[i])
                == space::material_at(b, at + 0x70 * i),
    decreases n,
{
    if n > 0 {
        materials_from_are_read_in_order(b, at, n - 1);
        assert(space::material_at(b, at + 0x70 * (n - 1)) is Some);
    }
}

/// A material of a placed model is read as it was written: each name with its own code,
/// and a first number for those whose code is 3.
#[verifier::rlimit(50)]
pub proof fn materials_are_read_as_written(
    b: Seq<u8>,
    at: int,
    gaps: (Seq<u8>, Seq<u8>, Seq<u8>, Seq<u8>),
    shader: u32,
    pointers: (i64, i64, i64),
    hash: u64,
    names: Seq<u32>,
    codes: Seq<u16>,
    number: u32,
)
    requires
        gaps.0.len() == 2,
        gaps.1.len() == 8,
        gaps.2.len() == 0x18,
        gaps.3.len() == 0x28,
        names.len() <= 0xFFFF,
        codes.len() == names.len(),
        0 <= pointers.0,
        0 <= pointers.1,
        0 <= pointers.2,
        layout::holds(
            b,
            at,
            layout::joined(
                material(
                    names.len() as u16,
                    gaps,
                    shader,
                    pointers.0,
                    pointers.1,
                    pointers.2,
                    hash,
                ),
            ),
        ),
        layout::holds(b, at + pointers.0, layout::le32s(names)),
        layout::holds(b, at + pointers.1, layout::le16s(codes)),
        layout::holds(b, at + pointers.2, layout::le32(number)),
    ensures
        space::material_at(b, at) is Some,
        ({
            let read = space::material_at(b, at)->0;
            &&& read.source_offset == at
            &&& read.shader_id == shader
            &&& read.material_hash == hash
            &&& read.properties.len() == names.len()
            &&& forall|i: int|
                0 <= i < names.len() ==> {
                    &&& (#[trigger] read.properties[i]).name_hash == names[i]
                    &&& read.properties[i].property_type == PropertyType::FloatB <==> codes[i]
                        == 3
                    &&& codes[i] == 3 ==> read.properties[i].value == Some(
                        PropertyValue::Float(number),
                    )
                    &&& codes[i] != 3 ==> read.properties[i].value is None
                }
        }),
{
    let f = material(
        names.len() as u16,
        gaps,
        shader,
        pointers.0,
        pointers.1,
        pointers.2,
        hash,
    );
    layout::numbers_have_fixed_sizes();
    assert(layout::offset(f, 0) == 0);
    assert(layout::offset(f, 1) == 2);
    assert(layout::offset(f, 2) == 4);
    assert(layout::offset(f, 3) == 8);
    assert(layout::offset(f, 4) == 0x10);
    assert(layout::offset(f, 5) == 0x18);
    assert(layout::offset(f, 6) == 0x20);
    assert(layout::offset(f, 7) == 0x38);
    assert(layout::offset(f, 8) == 0x40);
    assert(layout::offset(f, 9) == 0x68);
    layout::field_stands(b, at, f, 0);
    layout::field_stands(b, at, f, 2);
    layout::field_stands(b, at, f, 4);
    layout::field_stands(b, at, f, 5);
    layout::field_stands(b, at, f, 7);
    layout::field_stands(b, at, f, 9);
    layout::reads_16(b, at, names.len() as u16);
    layout::reads_32(b, at + 0x04, shader);
    layout::reads_signed_64(b, at + 0x10, pointers.0);
    layout::reads_signed_64(b, at + 0x18, pointers.1);
    layout::reads_signed_64(b, at + 0x38, pointers.2);
    layout::reads_64(b, at + 0x68, hash);
    layout::reads_32s(b, at + pointers.0, names);
    layout::reads_16s(b, at + pointers.1, codes);
    layout::reads_32(b, at + pointers.2, number);
    let read = space::properties_at(b, at)->0;
    assert forall|i: int| 0 <= i < names.len() implies bytes::u32_at(b, at + pointers.0 + 4 * i)
        == names[i] && bytes::u16_at(b, at + pointers.1 + 2 * i) == codes[i] by {
        assert(bytes::u32s_at(b, at + pointers.0, names.len() as int)[i] == names[i]);
        assert(bytes::u16s_at(b, at + pointers.1, codes.len() as int)[i] == codes[i]);
    }
}

/// An obstacle is read as it was written; its place is the translation of its transform.
pub proof fn obstacles_are_read_as_written(
    b: Seq<u8>,
    base: int,
    matrix: Seq<u32>,
    model: u16,
    collision: u16,
    unused: u32,
    min: (i32, i32),
    max: (i32, i32),
)
    requires
        matrix.len() == 16,
        layout::holds(
            b,
            base,
            layout::joined(obstacle(matrix, model, collision, unused, min, max)),
        ),
    ensures
        forall|read: SpaceObstacle| #[trigger]
            read.stands_at(b, base) ==> {
                &&& read.source_offset == base
                &&& read.transform@ == matrix
                &&& read.position@ == seq![matrix[12], matrix[13], matrix[14]]
                &&& read.packed_indices == model + 0x1_0000 * collision
                &&& read.candidate_model_instance_index == model
                &&& read.candidate_collision_model_index == collision
                &&& read.field_44 == unused
                &&& read.grid_min@ == seq![min.0, min.1]
                &&& read.grid_max@ == seq![max.0, max.1]
            },
{
    let f = obstacle(matrix, model, collision, unused, min, max);
    layout::numbers_have_fixed_sizes();
    layout::matrices_have_a_fixed_size(matrix);
    reveal_with_fuel(layout::offset, 9);
    layout::field_stands(b, base, f, 0);
    layout::field_stands(b, base, f, 1);
    layout::field_stands(b, base, f, 2);
    layout::field_stands(b, base, f, 3);
    layout::field_stands(b, base, f, 4);
    layout::field_stands(b, base, f, 5);
    layout::field_stands(b, base, f, 6);
    layout::field_stands(b, base, f, 7);
    layout::reads_matrix(b, base, matrix);
    layout::reads_16(b, base + 0x40, model);
    layout::reads_16(b, base + 0x42, collision);
    layout::reads_32(b, base + 0x44, unused);
    layout::reads_signed_32(b, base + 0x48, min.0);
    layout::reads_signed_32(b, base + 0x4c, min.1);
    layout::reads_signed_32(b, base + 0x50, max.0);
    layout::reads_signed_32(b, base + 0x54, max.1);
    assert(matrix.subrange(12, 15) =~= seq![matrix[12], matrix[13], matrix[14]]);
}

/// A particle emitter is read as it was written; its place is the translation of its
/// transform.
pub proof fn particles_are_read_as_written(
    b: Seq<u8>,
    base: int,
    matrix: Seq<u32>,
    guid: Seq<u8>,
    resource: u64,
    gap: Seq<u8>,
    p: i64,
    intensities: Seq<u32>,
)
    requires
        matrix.len() == 16,
        guid.len() == 0x10,
        gap.len() == 4,
        intensities.len() <= u32::MAX,
        layout::holds(
            b,
            base,
            layout::joined(particle(matrix, guid, resource, intensities.len() as u32, gap, p)),
        ),
        layout::holds(b, base + p, layout::le32s(intensities)),
    ensures
        forall|read: SpaceParticle| #[trigger]
            read.stands_at(b, base) ==> {
                &&& read.transform@ == matrix
                &&& read.position@ == seq![matrix[12], matrix[13], matrix[14]]
                &&& read.raw_guid_blob@ == guid
                &&& read.resource_id == resource
                &&& read.intensity_count == intensities.len()
                &&& read.intensity_values@ == intensities
            },
{
    let f = particle(matrix, guid, resource, intensities.len() as u32, gap, p);
    layout::numbers_have_fixed_sizes();
    layout::matrices_have_a_fixed_size(matrix);
    reveal_with_fuel(layout::offset, 7);
    layout::field_stands(b, base, f, 0);
    layout::field_stands(b, base, f, 1);
    layout::field_stands(b, base, f, 2);
    layout::field_stands(b, base, f, 3);
    layout::field_stands(b, base, f, 5);
    layout::reads_matrix(b, base, matrix);
    assert forall|i: int| 0 <= i < 0x10 implies b.subrange(base + 0x40, base + 0x50)[i]
        == guid[i] by {
        assert(b[base + 0x40 + i] == f[1][i]);
    }
    assert(b.subrange(base + 0x40, base + 0x50) =~= guid);
    layout::reads_64(b, base + 0x50, resource);
    layout::reads_32(b, base + 0x58, intensities.len() as u32);
    layout::reads_signed_64(b, base + 0x60, p);
    layout::reads_32s(b, base + p, intensities);
    assert(matrix.subrange(12, 15) =~= seq![matrix[12], matrix[13], matrix[14]]);
}

/// A point light is read as it was written; it stands where its transform takes its place.
pub proof fn point_lights_are_read_as_written(
    b: Seq<u8>,
    base: int,
    matrix: Seq<u32>,
    unused: Seq<u8>,
    color: Seq<u32>,
    place: Seq<u32>,
    gap: Seq<u8>,
    radius: u32,
    quality: u32,
)
    requires
        matrix.len() == 16,
        unused.len() == 0x50,
        color.len() == 4,
        place.len() == 3,
        gap.len() == 4,
        layout::holds(
            b,
            base,
            layout::joined(point_light(matrix, unused, color, place, gap, radius, quality)),
        ),
    ensures
        forall|read: SpacePointLight| #[trigger]
            read.stands_at(b, base) ==> {
                &&& read.world_position@ == transform::transformed(matrix, place)
                &&& read.color@ == color
                &&& read.radius == radius
                &&& read.min_quality == quality
            },
{
    let f = point_light(matrix, unused, color, place, gap, radius, quality);
    layout::numbers_have_fixed_sizes();
    layout::matrices_have_a_fixed_size(matrix);
    layout::vectors_have_fixed_sizes(color);
    layout::vectors_have_fixed_sizes(place);
    reveal_with_fuel(layout::offset, 8);
    layout::field_stands(b, base, f, 0);
    layout::field_stands(b, base, f, 2);
    layout::field_stands(b, base, f, 3);
    layout::field_stands(b, base, f, 5);
    layout::field_stands(b, base, f, 6);
    layout::reads_matrix(b, base, matrix);
    layout::reads_32s(b, base + 0x90, color);
    layout::reads_32s(b, base + 0xa0, place);
    layout::reads_32(b, base + 0xb0, radius);
    layout::reads_32(b, base + 0xb4, quality);
}

/// A probe is read as it was written; its place is the translation of its transform.
#[verifier::rlimit(50)]
pub proof fn probes_are_read_as_written(
    b: Seq<u8>,
    base: int,
    matrix: Seq<u32>,
    guid: (i64, Seq<u8>),
    name: (i64, Seq<u8>),
    resolution: u32,
    gap: Seq<u8>,
    main: u8,
    full: u8,
)
    requires
        matrix.len() == 16,
        gap.len() == 4,
        guid.1.len() < u64::MAX,
        name.1.len() < u64::MAX,
        layout::holds(
            b,
            base,
            layout::joined(
                probe(
                    matrix,
                    descriptor((guid.1.len() + 1) as u64, guid.0),
                    descriptor((name.1.len() + 1) as u64, name.0),
                    resolution,
                    gap,
                    main,
                    full,
                ),
            ),
        ),
        layout::holds(b, base + 0x40 + guid.0, guid.1.push(0)),
        layout::holds(b, base + 0x50 + name.0, name.1.push(0)),
    ensures
        forall|read: SpaceProbe| #[trigger]
            read.stands_at(b, base) ==> {
                &&& read.transform@ == matrix
                &&& read.position@ == seq![matrix[12], matrix[13], matrix[14]]
                &&& text::opt_text(read.guid) == Some(text::utf8_lossy(guid.1))
                &&& text::opt_text(read.name) == Some(text::utf8_lossy(name.1))
                &&& read.resolution == resolution
                &&& read.is_main_probe == (main != 0)
                &&& read.draw_full_scene == (full != 0)
            },
{
    let f = probe(
        matrix,
        descriptor((guid.1.len() + 1) as u64, guid.0),
        descriptor((name.1.len() + 1) as u64, name.0),
        resolution,
        gap,
        main,
        full,
    );
    layout::numbers_have_fixed_sizes();
    layout::matrices_have_a_fixed_size(matrix);
    assert(f[1].len() == 0x10 && f[2].len() == 0x10);
    reveal_with_fuel(layout::offset, 8);
    layout::field_stands(b, base, f, 0);
    layout::field_stands(b, base, f, 1);
    layout::field_stands(b, base, f, 2);
    layout::field_stands(b, base, f, 3);
    layout::field_stands(b, base, f, 5);
    layout::field_stands(b, base, f, 6);
    layout::reads_matrix(b, base, matrix);
    texts_are_read_as_written(b, base + 0x40, guid.0, guid.1);
    texts_are_read_as_written(b, base + 0x50, name.0, name.1);
    layout::reads_32(b, base + 0x60, resolution);
    assert(b[base + 0x68 + 0] == f[5][0]);
    assert(b[base + 0x69 + 0] == f[6][0]);
    assert(matrix.subrange(12, 15) =~= seq![matrix[12], matrix[13], matrix[14]]);
}

/// A static decal is read as it was written: the eight numbers in order, the transform
/// behind the pointer to the textures, and the textures one after the other.
#[verifier::rlimit(50)]
pub proof fn static_decals_are_read_as_written(
    b: Seq<u8>,
    base: int,
    numbers: Seq<u32>,
    p: i64,
    matrix: Seq<u32>,
    textures: Seq<(i64, Seq<u8>)>,
)
    requires
        numbers.len() == 8,
        matrix.len() == 16,
        textures.len() == 3,
        layout::holds(b, base, layout::joined(static_decal(numbers, p, matrix))),
        0 <= base + p,
        forall|i: int|
            0 <= i < 3 ==> refers_to(
                b,
                base + p + 0x10 * i,
                (#[trigger] textures[i]).0,
                textures[i].1,
            ),
    ensures
        forall|read: SpaceStaticDecal| #[trigger]
            read.stands_at(b, base) ==> {
                &&& read.transform@ == matrix
                &&& read.position@ == seq![matrix[12], matrix[13], matrix[14]]
                &&& read.header.technique == numbers[0]
                &&& read.header.influence == numbers[1]
                &&& read.header.field_08 == numbers[2]
                &&& read.header.field_0c == numbers[3]
                &&& read.header.variant == numbers[4]
                &&& read.header.alpha == numbers[5]
                &&& read.header.field_18 == numbers[6]
                &&& read.header.field_1c == numbers[7]
                &&& read.texture_paths@.len() == 3
                &&& forall|i: int|
                    0 <= i < 3 ==> text::opt_text(#[trigger] read.texture_paths@[i]) == Some(
                        text::utf8_lossy(textures[i].1),
                    )
            },
{
    let f = static_decal(numbers, p, matrix);
    layout::numbers_have_fixed_sizes();
    layout::matrices_have_a_fixed_size(matrix);
    layout::vectors_have_fixed_sizes(numbers);
    reveal_with_fuel(layout::offset, 4);
    layout::field_stands(b, base, f, 0);
    layout::field_stands(b, base, f, 1);
    layout::field_stands(b, base, f, 2);
    layout::reads_32s(b, base, numbers);
    layout::reads_signed_64(b, base + 0x20, p);
    layout::reads_matrix(b, base + 0x28, matrix);
    assert forall|i: int| 0 <= i < 8 implies bytes::u32_at(b, base + 4 * i) == numbers[i] by {
        assert(bytes::u32s_at(b, base, 8)[i] == numbers[i]);
    }
    assert(bytes::u32_at(b, base + 4 * 0) == numbers[0]);
    assert(bytes::u32_at(b, base + 4 * 1) == numbers[1]);
    assert(bytes::u32_at(b, base + 4 * 2) == numbers[2]);
    assert(bytes::u32_at(b, base + 4 * 3) == numbers[3]);
    assert(bytes::u32_at(b, base + 4 * 4) == numbers[4]);
    assert(bytes::u32_at(b, base + 4 * 5) == numbers[5]);
    assert(bytes::u32_at(b, base + 4 * 6) == numbers[6]);
    assert(bytes::u32_at(b, base + 4 * 7) == numbers[7]);
    assert(matrix.subrange(12, 15) =~= seq![matrix[12], matrix[13], matrix[14]]);
    assert forall|i: int| 0 <= i < 3 implies #[trigger] space::texture_slot(b, base + p, i)
        == Some(text::utf8_lossy(textures[i].1)) by {
        texts_are_read_as_written(b, base + p + 0x10 * i, textures[i].0, textures[i].1);
    }
    assert forall|read: SpaceStaticDecal|
        #![trigger read.stands_at(b, base)]
        read.stands_at(b, base) implies read.texture_paths@.len() == 3 && forall|i: int|
        0 <= i < 3 ==> text::opt_text(#[trigger] read.texture_paths@[i]) == Some(
            text::utf8_lossy(textures[i].1),
        ) by {
        let slots = space::opt_texts(read.texture_paths@);
        assert(slots.len() == 3);
        assert forall|i: int| 0 <= i < 3 implies text::opt_text(#[trigger] read.texture_paths@[i])
            == Some(text::utf8_lossy(textures[i].1)) by {
            assert(slots[i] == text::opt_text(read.texture_paths@[i]));
            assert(slots[i] == space::texture_slot(b, base + p, i));
        }
    }
}

/// A user object is read as it was written; its place is the translation of its transform.
pub proof fn user_objects_are_read_as_written(
    b: Seq<u8>,
    base: int,
    matrix: Seq<u32>,
    guid: (i64, Seq<u8>),
    kind: (i64, Seq<u8>),
    properties: (i64, Seq<u8>),
)
    requires
        matrix.len() == 16,
        guid.1.len() < u64::MAX,
        kind.1.len() < u64::MAX,
        properties.1.len() < u64::MAX,
        layout::holds(
            b,
            base,
            layout::joined(
                user_object(
                    matrix,
                    descriptor((guid.1.len() + 1) as u64, guid.0),
                    descriptor((kind.1.len() + 1) as u64, kind.0),
                    descriptor((properties.1.len() + 1) as u64, properties.0),
                ),
            ),
        ),
        layout::holds(b, base + 0x40 + guid.0, guid.1.push(0)),
        layout::holds(b, base + 0x50 + kind.0, kind.1.push(0)),
        layout::holds(b, base + 0x60 + properties.0, properties.1.push(0)),
    ensures
        forall|read: SpaceUserObject| #[trigger]
            read.stands_at(b, base) ==> {
                &&& read.transform@ == matrix
                &&& read.position@ == seq![matrix[12], matrix[13], matrix[14]]
                &&& text::opt_text(read.guid) == Some(text::utf8_lossy(guid.1))
                &&& text::opt_text(read.object_type) == Some(text::utf8_lossy(kind.1))
                &&& text::opt_text(read.properties_xml) == Some(text::utf8_lossy(properties.1))
            },
{
    let f = user_object(
        matrix,
        descriptor((guid.1.len() + 1) as u64, guid.0),
        descriptor((kind.1.len() + 1) as u64, kind.0),
        descriptor((properties.1.len() + 1) as u64, properties.0),
    );
    layout::numbers_have_fixed_sizes();
    layout::matrices_have_a_fixed_size(matrix);
    assert(f[1].len() == 0x10 && f[2].len() == 0x10 && f[3].len() == 0x10);
    reveal_with_fuel(layout::offset, 5);
    layout::field_stands(b, base, f, 0);
    layout::field_stands(b, base, f, 1);
    layout::field_stands(b, base, f, 2);
    layout::field_stands(b, base, f, 3);
    layout::reads_matrix(b, base, matrix);
    texts_are_read_as_written(b, base + 0x40, guid.0, guid.1);
    texts_are_read_as_written(b, base + 0x50, kind.0, kind.1);
    texts_are_read_as_written(b, base + 0x60, properties.0, properties.1);
    assert(matrix.subrange(12, 15) =~= seq![matrix[12], matrix[13], matrix[14]]);
}

/// The counts and offsets at the start of a map file are read as they were written, and
/// each kind of record is taken from its own table: models, obstacles, particles, point
/// lights, probes, static decals and user objects, in this order.
pub proof fn maps_are_read_as_written(b: Seq<u8>, counts: Seq<u32>, offsets: Seq<i64>)
    requires
        counts.len() == 8,
        offsets.len() == 8,
        layout::holds(b, 0, layout::le32s(counts)),
        forall|k: int| 0 <= k < 8 ==> 0 <= #[trigger] offsets[k] && layout::holds(
            b,
            0x20 + 8 * k,
            layout::signed64(offsets[k]),
        ),
    ensures
        forall|read: SpaceInstances| #[trigger]
            space::contents_stand(read, b) ==> {
                &&& read.instances@.len() == counts[0]
                &&& forall|i: int|
                    0 <= i < counts[0] ==> (#[trigger] read.instances@[i]).stands_at(
                        b,
                        offsets[0] + i * 0x70,
                    )
                &&& read.obstacles@.len() == counts[1]
                &&& forall|i: int|
                    0 <= i < counts[1] ==> (#[trigger] read.obstacles@[i]).stands_at(
                        b,
                        offsets[1] + i * 0x58,
                    )
                &&& read.particles@.len() == counts[2]
                &&& forall|i: int|
                    0 <= i < counts[2] ==> (#[trigger] read.particles@[i]).stands_at(
                        b,
                        offsets[2] + i * 0x68,
                    )
                &&& read.point_lights@.len() == counts[3]
                &&& forall|i: int|
                    0 <= i < counts[3] ==> (#[trigger] read.point_lights@[i]).stands_at(
                        b,
                        offsets[3] + i * 0xc0,
                    )
                &&& read.probes@.len() == counts[4]
                &&& forall|i: int|
                    0 <= i < counts[4] ==> (#[trigger] read.probes@[i]).stands_at(
                        b,
                        offsets[4] + i * 0x70,
                    )
                &&& read.static_decals@.len() == counts[5]
                &&& forall|i: int|
                    0 <= i < counts[5] ==> (#[trigger] read.static_decals@[i]).stands_at(
                        b,
                        offsets[5] + i * 0x68,
                    )
                &&& read.user_objects@.len() == counts[6]
                &&& forall|i: int|
                    0 <= i < counts[6] ==> (#[trigger] read.user_objects@[i]).stands_at(
                        b,
                        offsets[6] + i * 0x70,
                    )
            },
{
    assert(0 <= offsets[0]);
    tables_are_read_as_written(b, counts, offsets, 0);
    assert(0 <= offsets[1]);
    tables_are_read_as_written(b, counts, offsets, 1);
    assert(0 <= offsets[2]);
    tables_are_read_as_written(b, counts, offsets, 2);
    assert(0 <= offsets[3]);
    tables_are_read_as_written(b, counts, offsets, 3);
    assert(0 <= offsets[4]);
    tables_are_read_as_written(b, counts, offsets, 4);
    assert(0 <= offsets[5]);
    tables_are_read_as_written(b, counts, offsets, 5);
    assert(0 <= offsets[6]);
    tables_are_read_as_written(b, counts, offsets, 6);
}

proof fn tables_are_read_as_written(b: Seq<u8>, counts: Seq<u32>, offsets: Seq<i64>, k: int)
    requires
        counts.len() == 8,
        offsets.len() == 8,
        0 <= k < 8,
        0 <= offsets[k],
        layout::holds(b, 0, layout::le32s(counts)),
        layout::holds(b, 0x20 + 8 * k, layout::signed64(offsets[k])),
    ensures
        space::table_count(b, k) == counts[k],
        space::table_offset(b, k) == offsets[k],
{
    layout::reads_32s(b, 0, counts);
    assert(bytes::u32s_at(b, 0, 8)[k] == counts[k]);
    layout::reads_signed_64(b, 0x20 + 8 * k, offsets[k]);
}

/// A map file whose tables all end inside it is not refused.
pub proof fn complete_maps_are_read(b: Seq<u8>, counts: Seq<u32>, offsets: Seq<i64>)
    requires
        counts.len() == 8,
        offsets.len() == 8,
        b.len() >= 0x60,
        layout::holds(b, 0, layout::le32s(counts)),
        forall|k: int| 0 <= k < 8 ==> 0 <= #[trigger] offsets[k] && layout::holds(
            b,
            0x20 + 8 * k,
            layout::signed64(offsets[k]),
        ),
        counts[0] > 0 ==> offsets[0] + counts[0] * 0x70 <= b.len(),
        counts[1] > 0 ==> offsets[1] + counts[1] * 0x58 <= b.len(),
        counts[2] > 0 ==> offsets[2] + counts[2] * 0x68 <= b.len(),
        counts[3] > 0 ==> offsets[3] + counts[3] * 0xc0 <= b.len(),
        counts[4] > 0 ==> offsets[4] + counts[4] * 0x70 <= b.len(),
        counts[5] > 0 ==> offsets[5] + counts[5] * 0x68 <= b.len(),
        counts[6] > 0 ==> offsets[6] + counts[6] * 0x70 <= b.len(),
    ensures
        space::space_error(b) is None,
{
    assert(0 <= offsets[0]);
    tables_are_read_as_written(b, counts, offsets, 0);
    assert(0 <= offsets[1]);
    tables_are_read_as_written(b, counts, offsets, 1);
    assert(0 <= offsets[2]);
    tables_are_read_as_written(b, counts, offsets, 2);
    assert(0 <= offsets[3]);
    tables_are_read_as_written(b, counts, offsets, 3);
    assert(0 <= offsets[4]);
    tables_are_read_as_written(b, counts, offsets, 4);
    assert(0 <= offsets[5]);
    tables_are_read_as_written(b, counts, offsets, 5);
    assert(0 <= offsets[6]);
    tables_are_read_as_written(b, counts, offsets, 6);
}

} // verus!
