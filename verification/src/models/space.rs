//! Reader for the contents of a map (`space.bin`).
//!
//! ```text
//! 0x00  eight u32 counts
//! 0x20  eight i64 offsets from the start of the file
//! ```
//!
//! The tables are, in this order: models, obstacles, particles, point lights,
//! probes, static decals, user objects and prefabs. Prefabs are not read. Pointers
//! inside a record are relative to the record, those of a text to the descriptor
//! that holds its length and the pointer. Numbers that are not integers are kept as
//! single-precision bit patterns.
use vstd::prelude::*;

use crate::bytes;
use crate::models::material::PropertyType;
use crate::models::material::PropertyValue;
use crate::models::merged_models;
use crate::models::merged_models::MergedModelsError;
use crate::models::transform;
use crate::models::user_object_xml;
use crate::models::user_object_xml::SpaceUserObjectPropertyValue;
use crate::models::visual;
use crate::models::visual::Matrix4x4;
use crate::text;

verus! {

pub const SPACE_HEADER_SIZE: usize = 0x60;

pub const SPACE_INSTANCE_SIZE: usize = 0x70;

pub const SPACE_OBSTACLE_SIZE: usize = 0x58;

pub const SPACE_PARTICLE_SIZE: usize = 0x68;

pub const SPACE_POINT_LIGHT_SIZE: usize = 0xc0;

pub const SPACE_PROBE_SIZE: usize = 0x70;

pub const SPACE_STATIC_DECAL_SIZE: usize = 0x68;

pub const SPACE_USER_OBJECT_SIZE: usize = 0x70;

/// Bytes per material instance.
pub const MATERIAL_INSTANCE_ITEM_SIZE: usize = 0x70;

/// A colour choice of one instance: the material and the tint for it.
#[derive(Debug, Clone, Copy, PartialEq, Eq, Structural)]
pub struct ModelDye {
    pub matter_id: u32,
    pub replaces_id: u32,
}

/// The code of a property whose value is the first one of the table of numbers.
pub const FIRST_NUMBER: u16 = 3;

/// A property of a material override. Properties with other codes than [`FIRST_NUMBER`]
/// are kept without their value.
#[derive(Debug, Clone, Copy)]
pub struct InstanceProperty {
    pub property_type: PropertyType,
    pub name_hash: u32,
    pub value: Option<PropertyValue>,
}

/// A material override, with its place in the file.
#[derive(Debug)]
pub struct MaterialInstance {
    pub source_offset: usize,
    pub shader_id: u32,
    pub material_hash: u64,
    pub properties: Vec<InstanceProperty>,
}

pub struct MaterialInstanceView {
    pub source_offset: int,
    pub shader_id: u32,
    pub material_hash: u64,
    pub properties: Seq<InstanceProperty>,
}

impl View for MaterialInstance {
    type V = MaterialInstanceView;

    open spec fn view(&self) -> MaterialInstanceView {
        MaterialInstanceView {
            source_offset: self.source_offset as int,
            shader_id: self.shader_id,
            material_hash: self.material_hash,
            properties: self.properties@,
        }
    }
}

pub open spec fn instance_views(s: Seq<MaterialInstance>) -> Seq<MaterialInstanceView> {
    Seq::new(s.len(), |i: int| s[i]@)
}

/// A placed model.
#[derive(Debug)]
pub struct SpaceInstance {
    pub transform: Matrix4x4,
    /// Path id of a record of the model file.
    pub path_id: u64,
    pub is_landscape: bool,
    pub min_quality_level: u8,
    pub stable_guid: Option<String>,
    pub model_dyes: Vec<ModelDye>,
    pub material_instance_count: u8,
    pub material_instances: Vec<MaterialInstance>,
}

/// A collision obstacle.
#[derive(Debug, Clone)]
pub struct SpaceObstacle {
    pub source_offset: usize,
    pub transform: Matrix4x4,
    pub position: [u32; 3],
    pub packed_indices: u32,
    pub candidate_model_instance_index: u16,
    pub candidate_collision_model_index: u16,
    pub field_44: u32,
    pub grid_min: [i32; 2],
    pub grid_max: [i32; 2],
}

/// A particle emitter.
#[derive(Debug, Clone)]
pub struct SpaceParticle {
    pub transform: Matrix4x4,
    pub position: [u32; 3],
    pub raw_guid_blob: [u8; 16],
    pub resource_id: u64,
    pub intensity_count: u32,
    pub intensity_values: Vec<u32>,
}

/// A point light.
#[derive(Debug, Clone)]
pub struct SpacePointLight {
    /// Position in the world: the local one under the transform of the instance.
    pub world_position: [u32; 3],
    pub color: [u32; 4],
    pub radius: u32,
    pub min_quality: u32,
}

#[derive(Debug, Clone, Copy, PartialEq, Eq, Structural)]
pub struct SpaceStaticDecalHeader {
    pub technique: u32,
    pub influence: u32,
    pub field_08: u32,
    pub field_0c: u32,
    pub variant: u32,
    pub alpha: u32,
    pub field_18: u32,
    pub field_1c: u32,
}

/// A decal.
#[derive(Debug, Clone)]
pub struct SpaceStaticDecal {
    pub transform: Matrix4x4,
    pub position: [u32; 3],
    pub header: SpaceStaticDecalHeader,
    pub texture_paths: Vec<Option<String>>,
}

/// A reflection probe.
#[derive(Debug, Clone)]
pub struct SpaceProbe {
    pub transform: Matrix4x4,
    pub position: [u32; 3],
    pub guid: Option<String>,
    pub name: Option<String>,
    pub resolution: u32,
    pub is_main_probe: bool,
    pub draw_full_scene: bool,
}

/// A user object.
#[derive(Debug, Clone)]
pub struct SpaceUserObject {
    pub transform: Matrix4x4,
    pub position: [u32; 3],
    pub guid: Option<String>,
    pub object_type: Option<String>,
    pub properties_xml: Option<String>,
    pub properties_well_formed: bool,
    pub property_tags: Vec<String>,
    pub property_values: Vec<SpaceUserObjectPropertyValue>,
}

/// The contents of a map.
#[derive(Debug)]
pub struct SpaceInstances {
    pub instances: Vec<SpaceInstance>,
    pub obstacles: Vec<SpaceObstacle>,
    pub particles: Vec<SpaceParticle>,
    pub point_lights: Vec<SpacePointLight>,
    pub probes: Vec<SpaceProbe>,
    pub static_decals: Vec<SpaceStaticDecal>,
    pub user_objects: Vec<SpaceUserObject>,
}

/// The bytes of a text without one terminating zero.
pub open spec fn without_terminator(b: Seq<u8>) -> Seq<u8> {
    if b.len() > 0 && b.last() == 0 {
        b.drop_last()
    } else {
        b
    }
}

/// The text of `len` bytes at `rel` from a descriptor. There is none if the
/// length is zero or the bytes do not lie inside the file.
pub open spec fn described_text(b: Seq<u8>, base: int, len: int, rel: int) -> Option<Seq<char>> {
    if len == 0 || base + rel < 0 || base + rel + len > b.len() {
        None
    } else {
        Some(text::utf8_lossy(without_terminator(b.subrange(base + rel, base + rel + len))))
    }
}

/// The text whose descriptor stands at `base`.
pub open spec fn text_at(b: Seq<u8>, base: int) -> Option<Seq<char>> {
    described_text(b, base, bytes::u64_at(b, base) as int, bytes::i64_at(b, base + 8) as int)
}

/// Reads the text of a descriptor.
pub fn read_string_descriptor(
    file_data: &[u8],
    descriptor_base: usize,
    len: u64,
    relptr: i64,
) -> (r: Option<String>)
    ensures
        text::opt_text(r) == described_text(
            file_data@,
            descriptor_base as int,
            len as int,
            relptr as int,
        ),
{
    let start: i128 = descriptor_base as i128 + relptr as i128;
    if len == 0 || start < 0 || start + len as i128 > file_data.len() as i128 {
        return None;
    }
    let from: usize = start as usize;
    let to: usize = from + len as usize;
    let ghost all = file_data@.subrange(from as int, to as int);
    if file_data[to - 1] == 0 {
        assert(file_data@.subrange(from as int, to - 1) =~= without_terminator(all));
        Some(text::from_utf8_lossy(vstd::slice::slice_subrange(file_data, from, to - 1)))
    } else {
        assert(all =~= without_terminator(all));
        Some(text::from_utf8_lossy(vstd::slice::slice_subrange(file_data, from, to)))
    }
}

/// Reads the text whose descriptor stands at `base`.
fn read_text(b: &[u8], base: usize) -> (r: Option<String>)
    requires
        base + 16 <= b.len(),
    ensures
        text::opt_text(r) == text_at(b@, base as int),
{
    read_string_descriptor(b, base, bytes::get_u64(b, base), bytes::get_i64(b, base + 8))
}

/// Where `count` items of `stride` bytes at `rel` from `base` start, if they lie
/// inside the file.
pub open spec fn items_start(b: Seq<u8>, base: int, rel: int, count: int, stride: int) -> Option<
    int,
> {
    if base + rel < 0 || base + rel + count * stride > b.len() {
        None
    } else {
        Some(base + rel)
    }
}

fn find_items(b: &[u8], base: usize, rel: i64, count: u32, stride: u32) -> (r: Option<usize>)
    ensures
        match r {
            Some(at) => items_start(b@, base as int, rel as int, count as int, stride as int)
                == Some(at as int) && at + count * stride <= b.len(),
            None => items_start(b@, base as int, rel as int, count as int, stride as int) is None,
        },
{
    assert(0 <= count * stride <= 0xFFFF_FFFF * 0xFFFF_FFFF) by (nonlinear_arith)
        requires
            count <= 0xFFFF_FFFF,
            stride <= 0xFFFF_FFFF,
    ;
    let start: i128 = base as i128 + rel as i128;
    if start < 0 || start + (count as u64 * stride as u64) as i128 > b.len() as i128 {
        None
    } else {
        Some(start as usize)
    }
}

/// A record of a map table: how it is laid out and read.
pub trait SpaceRecord: Sized {
    /// Bytes per record.
    spec fn size() -> int;

    /// Whether this is the record at `base`.
    spec fn stands_at(self, b: Seq<u8>, base: int) -> bool;

    /// Reads the record at `base`.
    fn read_at(b: &[u8], base: usize) -> (r: Self)
        requires
            base + Self::size() <= b.len(),
        ensures
            r.stands_at(b@, base as int),
    ;
}

/// The dyes of the instance record at `base`.
pub open spec fn dyes_at(b: Seq<u8>, base: int) -> Seq<ModelDye> {
    let n = b[base + 0x59] as int;
    match items_start(b, base, bytes::i64_at(b, base + 0x60) as int, n, 8) {
        None => Seq::empty(),
        Some(at) => Seq::new(
            n as nat,
            |i: int|
                ModelDye {
                    matter_id: bytes::u32_at(b, at + 8 * i),
                    replaces_id: bytes::u32_at(b, at + 8 * i + 4),
                },
        ),
    }
}

/// Where a table of the material override at `at` starts, if it lies inside the file. Its
/// pointer stands at `field` and does not lead back.
pub open spec fn material_table(b: Seq<u8>, at: int, field: int, count: int, stride: int) -> Option<
    int,
> {
    let rel = bytes::i64_at(b, at + field) as int;
    if rel < 0 {
        None
    } else {
        items_start(b, at, rel, count, stride)
    }
}

/// A property of the material override at `at`, by its code.
pub open spec fn instance_property(b: Seq<u8>, at: int, name_hash: u32, code: u16) -> InstanceProperty {
    if code == FIRST_NUMBER {
        InstanceProperty {
            property_type: PropertyType::FloatB,
            name_hash,
            value: match material_table(b, at, 0x38, 1, 4) {
                Some(v) => Some(PropertyValue::Float(bytes::u32_at(b, v))),
                None => None,
            },
        }
    } else {
        InstanceProperty { property_type: PropertyType::Other, name_hash, value: None }
    }
}

/// The properties of the material override at `at`: the table of the hashes of their names
/// and that of their codes lie inside the file.
pub open spec fn properties_at(b: Seq<u8>, at: int) -> Option<Seq<InstanceProperty>> {
    let n = bytes::u16_at(b, at) as int;
    match (material_table(b, at, 0x10, n, 4), material_table(b, at, 0x18, n, 2)) {
        (Some(names), Some(codes)) => Some(
            Seq::new(
                n as nat,
                |i: int|
                    instance_property(
                        b,
                        at,
                        bytes::u32_at(b, names + 4 * i),
                        bytes::u16_at(b, codes + 2 * i),
                    ),
            ),
        ),
        _ => None,
    }
}

/// The material override whose record stands at `at`, if its properties can be read.
pub open spec fn material_at(b: Seq<u8>, at: int) -> Option<MaterialInstanceView> {
    match properties_at(b, at) {
        Some(properties) => Some(
            MaterialInstanceView {
                source_offset: at,
                shader_id: bytes::u32_at(b, at + 0x04),
                material_hash: bytes::u64_at(b, at + 0x68),
                properties,
            },
        ),
        None => None,
    }
}

/// Those of the first `n` material overrides from `at` on that can be read.
pub open spec fn materials_from(b: Seq<u8>, at: int, n: int) -> Seq<MaterialInstanceView>
    decreases n,
{
    if n <= 0 {
        Seq::empty()
    } else {
        match material_at(b, at + 0x70 * (n - 1)) {
            Some(m) => materials_from(b, at, n - 1).push(m),
            None => materials_from(b, at, n - 1),
        }
    }
}

/// The material overrides of the instance record at `base`.
pub open spec fn materials_at(b: Seq<u8>, base: int) -> Seq<MaterialInstanceView> {
    let n = b[base + 0x5a] as int;
    match items_start(b, base, bytes::i64_at(b, base + 0x68) as int, n, 0x70) {
        None => Seq::empty(),
        Some(at) => materials_from(b, at, n),
    }
}

fn read_dyes(b: &[u8], base: usize) -> (r: Vec<ModelDye>)
    requires
        base + 0x70 <= b.len(),
    ensures
        r@ == dyes_at(b@, base as int),
{
    let n: u8 = b[base + 0x59];
    let mut out: Vec<ModelDye> = Vec::new();
    match find_items(b, base, bytes::get_i64(b, base + 0x60), n as u32, 8) {
        None => {},
        Some(at) => {
            let mut i: usize = 0;
            while i < n as usize
                invariant
                    i <= n,
                    at + 8 * n <= b.len(),
                    out@.len() == i,
                    forall|k: int|
                        0 <= k < i ==> #[trigger] out@[k] == (ModelDye {
                            matter_id: bytes::u32_at(b@, at + 8 * k),
                            replaces_id: bytes::u32_at(b@, at + 8 * k + 4),
                        }),
                decreases n - i,
            {
                out.push(
                    ModelDye {
                        matter_id: bytes::get_u32(b, at + 8 * i),
                        replaces_id: bytes::get_u32(b, at + 8 * i + 4),
                    },
                );
                i += 1;
            }
        },
    }
    assert(out@ =~= dyes_at(b@, base as int));
    out
}

fn find_table(b: &[u8], at: usize, field: usize, count: u16, stride: u32) -> (r: Option<usize>)
    requires
        at + field + 8 <= b.len(),
    ensures
        match r {
            Some(t) => material_table(b@, at as int, field as int, count as int, stride as int)
                == Some(t as int) && t + count * stride <= b.len(),
            None => material_table(b@, at as int, field as int, count as int, stride as int) is None,
        },
{
    let rel: i64 = bytes::get_i64(b, at + field);
    if rel < 0 {
        None
    } else {
        find_items(b, at, rel, count as u32, stride)
    }
}

fn read_property(b: &[u8], at: usize, name_hash: u32, code: u16) -> (r: InstanceProperty)
    requires
        at + 0x70 <= b.len(),
    ensures
        r == instance_property(b@, at as int, name_hash, code),
{
    if code == FIRST_NUMBER {
        let value = match find_table(b, at, 0x38, 1, 4) {
            Some(v) => Some(PropertyValue::Float(bytes::get_u32(b, v))),
            None => None,
        };
        InstanceProperty { property_type: PropertyType::FloatB, name_hash, value }
    } else {
        InstanceProperty { property_type: PropertyType::Other, name_hash, value: None }
    }
}

/// Reads the properties of the material override at `at`.
fn read_properties(b: &[u8], at: usize) -> (r: Option<Vec<InstanceProperty>>)
    requires
        at + 0x70 <= b.len(),
    ensures
        match r {
            Some(v) => properties_at(b@, at as int) == Some(v@),
            None => properties_at(b@, at as int) is None,
        },
{
    let n: u16 = bytes::get_u16(b, at);
    let (names, codes): (usize, usize) = match (
        find_table(b, at, 0x10, n, 4),
        find_table(b, at, 0x18, n, 2),
    ) {
        (Some(names), Some(codes)) => (names, codes),
        _ => {
            return None;
        },
    };
    let mut out: Vec<InstanceProperty> = Vec::new();
    let mut i: usize = 0;
    while i < n as usize
        invariant
            i <= n,
            at + 0x70 <= b.len(),
            names + 4 * n <= b.len(),
            codes + 2 * n <= b.len(),
            out@.len() == i,
            forall|k: int|
                0 <= k < i ==> #[trigger] out@[k] == instance_property(
                    b@,
                    at as int,
                    bytes::u32_at(b@, names + 4 * k),
                    bytes::u16_at(b@, codes + 2 * k),
                ),
        decreases n - i,
    {
        let name_hash: u32 = bytes::get_u32(b, names + 4 * i);
        let code: u16 = bytes::get_u16(b, codes + 2 * i);
        out.push(read_property(b, at, name_hash, code));
        i += 1;
    }
    assert(Some(out@) =~= properties_at(b@, at as int)) by {
        assert(out@ =~= properties_at(b@, at as int)->0);
    }
    Some(out)
}

fn read_materials(b: &[u8], base: usize) -> (r: Vec<MaterialInstance>)
    requires
        base + 0x70 <= b.len(),
    ensures
        instance_views(r@) == materials_at(b@, base as int),
{
    let n: u8 = b[base + 0x5a];
    let mut out: Vec<MaterialInstance> = Vec::new();
    match find_items(b, base, bytes::get_i64(b, base + 0x68), n as u32, 0x70) {
        None => {
            assert(instance_views(out@) =~= Seq::empty());
        },
        Some(at) => {
            let mut i: usize = 0;
            assert(instance_views(out@) =~= materials_from(b@, at as int, 0));
            while i < n as usize
                invariant
                    i <= n,
                    at + 0x70 * n <= b.len(),
                    instance_views(out@) == materials_from(b@, at as int, i as int),
                decreases n - i,
            {
                let m: usize = at + MATERIAL_INSTANCE_ITEM_SIZE * i;
                if let Some(properties) = read_properties(b, m) {
                    let ghost before = instance_views(out@);
                    let material = MaterialInstance {
                        source_offset: m,
                        shader_id: bytes::get_u32(b, m + 0x04),
                        material_hash: bytes::get_u64(b, m + 0x68),
                        properties,
                    };
                    assert(material_at(b@, at + 0x70 * i) == Some(material@));
                    out.push(material);
                    assert(instance_views(out@) =~= before.push(material@));
                }
                i += 1;
            }
        },
    }
    out
}

impl SpaceRecord for SpaceInstance {
    open spec fn size() -> int {
        SPACE_INSTANCE_SIZE as int
    }

    open spec fn stands_at(self, b: Seq<u8>, base: int) -> bool {
        &&& self.transform@ == visual::matrix_at(b, base)
        &&& self.path_id == bytes::u64_at(b, base + 0x50)
        &&& self.is_landscape == (b[base + 0x58] != 0)
        &&& self.min_quality_level == b[base + 0x5b]
        &&& text::opt_text(self.stable_guid) == text_at(b, base + 0x40)
        &&& self.model_dyes@ == dyes_at(b, base)
        &&& self.material_instance_count == b[base + 0x5a]
        &&& instance_views(self.material_instances@) == materials_at(b, base)
    }

    fn read_at(b: &[u8], base: usize) -> (r: SpaceInstance) {
        SpaceInstance {
            transform: visual::get_matrix(b, base),
            path_id: bytes::get_u64(b, base + 0x50),
            is_landscape: b[base + 0x58] != 0,
            min_quality_level: b[base + 0x5b],
            stable_guid: read_text(b, base + 0x40),
            model_dyes: read_dyes(b, base),
            material_instance_count: b[base + 0x5a],
            material_instances: read_materials(b, base),
        }
    }
}

impl SpaceRecord for SpaceObstacle {
    open spec fn size() -> int {
        SPACE_OBSTACLE_SIZE as int
    }

    open spec fn stands_at(self, b: Seq<u8>, base: int) -> bool {
        &&& self.source_offset == base
        &&& self.transform@ == visual::matrix_at(b, base)
        &&& self.position@ == visual::matrix_at(b, base).subrange(12, 15)
        &&& self.packed_indices == bytes::u32_at(b, base + 0x40)
        &&& self.candidate_model_instance_index == bytes::u16_at(b, base + 0x40)
        &&& self.candidate_collision_model_index == bytes::u16_at(b, base + 0x42)
        &&& self.field_44 == bytes::u32_at(b, base + 0x44)
        &&& self.grid_min@ == seq![bytes::i32_at(b, base + 0x48), bytes::i32_at(b, base + 0x4c)]
        &&& self.grid_max@ == seq![bytes::i32_at(b, base + 0x50), bytes::i32_at(b, base + 0x54)]
    }

    fn read_at(b: &[u8], base: usize) -> (r: SpaceObstacle) {
        let transform = visual::get_matrix(b, base);
        let grid_min: [i32; 2] = [bytes::get_i32(b, base + 0x48), bytes::get_i32(b, base + 0x4c)];
        let grid_max: [i32; 2] = [bytes::get_i32(b, base + 0x50), bytes::get_i32(b, base + 0x54)];
        assert(grid_min@ =~= seq![
            bytes::i32_at(b@, base + 0x48),
            bytes::i32_at(b@, base + 0x4c),
        ]);
        assert(grid_max@ =~= seq![
            bytes::i32_at(b@, base + 0x50),
            bytes::i32_at(b@, base + 0x54),
        ]);
        let packed_indices: u32 = bytes::get_u32(b, base + 0x40);
        SpaceObstacle {
            source_offset: base,
            position: visual::matrix_position(&transform),
            transform,
            packed_indices,
            candidate_model_instance_index: (packed_indices % 0x1_0000) as u16,
            candidate_collision_model_index: (packed_indices / 0x1_0000) as u16,
            field_44: bytes::get_u32(b, base + 0x44),
            grid_min,
            grid_max,
        }
    }
}

/// The intensities of the particle record at `base`.
pub open spec fn intensities_at(b: Seq<u8>, base: int) -> Seq<u32> {
    let n = bytes::u32_at(b, base + 0x58) as int;
    match items_start(b, base, bytes::i64_at(b, base + 0x60) as int, n, 4) {
        None => Seq::empty(),
        Some(at) => bytes::u32s_at(b, at, n),
    }
}

fn read_intensities(b: &[u8], base: usize) -> (r: Vec<u32>)
    requires
        base + 0x68 <= b.len(),
    ensures
        r@ == intensities_at(b@, base as int),
{
    let n: u32 = bytes::get_u32(b, base + 0x58);
    match find_items(b, base, bytes::get_i64(b, base + 0x60), n, 4) {
        None => Vec::new(),
        Some(at) => bytes::get_u32s(b, at, n as usize),
    }
}

fn read_blob(b: &[u8], at: usize) -> (r: [u8; 16])
    requires
        at + 16 <= b.len(),
    ensures
        r@ == b@.subrange(at as int, at + 16),
{
    let mut out: [u8; 16] = [0u8; 16];
    let mut i: usize = 0;
    while i < 16
        invariant
            i <= 16,
            at + 16 <= b.len(),
            forall|k: int| 0 <= k < i ==> out@[k] == b@[at + k],
        decreases 16 - i,
    {
        out[i] = b[at + i];
        i += 1;
    }
    assert(out@ =~= b@.subrange(at as int, at + 16));
    out
}

impl SpaceRecord for SpaceParticle {
    open spec fn size() -> int {
        SPACE_PARTICLE_SIZE as int
    }

    open spec fn stands_at(self, b: Seq<u8>, base: int) -> bool {
        &&& self.transform@ == visual::matrix_at(b, base)
        &&& self.position@ == visual::matrix_at(b, base).subrange(12, 15)
        &&& self.raw_guid_blob@ == b.subrange(base + 0x40, base + 0x50)
        &&& self.resource_id == bytes::u64_at(b, base + 0x50)
        &&& self.intensity_count == bytes::u32_at(b, base + 0x58)
        &&& self.intensity_values@ == intensities_at(b, base)
    }

    fn read_at(b: &[u8], base: usize) -> (r: SpaceParticle) {
        let transform = visual::get_matrix(b, base);
        SpaceParticle {
            position: visual::matrix_position(&transform),
            transform,
            raw_guid_blob: read_blob(b, base + 0x40),
            resource_id: bytes::get_u64(b, base + 0x50),
            intensity_count: bytes::get_u32(b, base + 0x58),
            intensity_values: read_intensities(b, base),
        }
    }
}

impl SpaceRecord for SpacePointLight {
    open spec fn size() -> int {
        SPACE_POINT_LIGHT_SIZE as int
    }

    open spec fn stands_at(self, b: Seq<u8>, base: int) -> bool {
        &&& self.world_position@ == transform::transformed(
            visual::matrix_at(b, base),
            bytes::u32s_at(b, base + 0xa0, 3),
        )
        &&& self.color@ == bytes::u32s_at(b, base + 0x90, 4)
        &&& self.radius == bytes::u32_at(b, base + 0xb0)
        &&& self.min_quality == bytes::u32_at(b, base + 0xb4)
    }

    fn read_at(b: &[u8], base: usize) -> (r: SpacePointLight) {
        let color: [u32; 4] = [
            bytes::get_u32(b, base + 0x90),
            bytes::get_u32(b, base + 0x94),
            bytes::get_u32(b, base + 0x98),
            bytes::get_u32(b, base + 0x9c),
        ];
        let local_position: [u32; 3] = [
            bytes::get_u32(b, base + 0xa0),
            bytes::get_u32(b, base + 0xa4),
            bytes::get_u32(b, base + 0xa8),
        ];
        assert(color@ =~= bytes::u32s_at(b@, base + 0x90, 4));
        assert(local_position@ =~= bytes::u32s_at(b@, base + 0xa0, 3));
        SpacePointLight {
            world_position: transform::transform_point(
                &visual::get_matrix(b, base),
                local_position,
            ),
            color,
            radius: bytes::get_u32(b, base + 0xb0),
            min_quality: bytes::get_u32(b, base + 0xb4),
        }
    }
}

impl SpaceRecord for SpaceProbe {
    open spec fn size() -> int {
        SPACE_PROBE_SIZE as int
    }

    open spec fn stands_at(self, b: Seq<u8>, base: int) -> bool {
        &&& self.transform@ == visual::matrix_at(b, base)
        &&& self.position@ == visual::matrix_at(b, base).subrange(12, 15)
        &&& text::opt_text(self.guid) == text_at(b, base + 0x40)
        &&& text::opt_text(self.name) == text_at(b, base + 0x50)
        &&& self.resolution == bytes::u32_at(b, base + 0x60)
        &&& self.is_main_probe == (b[base + 0x68] != 0)
        &&& self.draw_full_scene == (b[base + 0x69] != 0)
    }

    fn read_at(b: &[u8], base: usize) -> (r: SpaceProbe) {
        let transform = visual::get_matrix(b, base);
        SpaceProbe {
            position: visual::matrix_position(&transform),
            transform,
            guid: read_text(b, base + 0x40),
            name: read_text(b, base + 0x50),
            resolution: bytes::get_u32(b, base + 0x60),
            is_main_probe: b[base + 0x68] != 0,
            draw_full_scene: b[base + 0x69] != 0,
        }
    }
}

/// The texture path in slot `i` of the texture block at `block`.
pub open spec fn texture_slot(b: Seq<u8>, block: int, i: int) -> Option<Seq<char>> {
    if block < 0 || block + 0x10 * i + 0x10 > b.len() {
        None
    } else {
        text_at(b, block + 0x10 * i)
    }
}

/// The texts of some optional strings.
pub open spec fn opt_texts(s: Seq<Option<String>>) -> Seq<Option<Seq<char>>> {
    Seq::new(s.len(), |i: int| text::opt_text(s[i]))
}

/// Reads the three texture paths of a decal.
pub fn read_static_decal_texture_paths(
    file_data: &[u8],
    rec_base: usize,
    texture_block_relptr: i64,
) -> (r: Vec<Option<String>>)
    ensures
        opt_texts(r@) == Seq::new(
            3,
            |i: int| texture_slot(file_data@, rec_base + texture_block_relptr, i),
        ),
{
    let block: i128 = rec_base as i128 + texture_block_relptr as i128;
    let mut paths: Vec<Option<String>> = Vec::new();
    let mut i: usize = 0;
    while i < 3
        invariant
            i <= 3,
            block == rec_base + texture_block_relptr,
            paths@.len() == i,
            forall|k: int|
                0 <= k < i ==> text::opt_text(#[trigger] paths@[k]) == texture_slot(
                    file_data@,
                    block as int,
                    k,
                ),
        decreases 3 - i,
    {
        let at: i128 = block + 0x10 * (i as i128);
        if block < 0 || at + 0x10 > file_data.len() as i128 {
            paths.push(None);
        } else {
            paths.push(read_text(file_data, at as usize));
        }
        i += 1;
    }
    assert(opt_texts(paths@) =~= Seq::new(
        3,
        |i: int| texture_slot(file_data@, rec_base + texture_block_relptr, i),
    ));
    paths
}

/// The header of the decal record at `base`.
pub open spec fn decal_header_at(b: Seq<u8>, base: int) -> SpaceStaticDecalHeader {
    SpaceStaticDecalHeader {
        technique: bytes::u32_at(b, base),
        influence: bytes::u32_at(b, base + 0x04),
        field_08: bytes::u32_at(b, base + 0x08),
        field_0c: bytes::u32_at(b, base + 0x0c),
        variant: bytes::u32_at(b, base + 0x10),
        alpha: bytes::u32_at(b, base + 0x14),
        field_18: bytes::u32_at(b, base + 0x18),
        field_1c: bytes::u32_at(b, base + 0x1c),
    }
}

impl SpaceRecord for SpaceStaticDecal {
    open spec fn size() -> int {
        SPACE_STATIC_DECAL_SIZE as int
    }

    open spec fn stands_at(self, b: Seq<u8>, base: int) -> bool {
        &&& self.transform@ == visual::matrix_at(b, base + 0x28)
        &&& self.position@ == visual::matrix_at(b, base + 0x28).subrange(12, 15)
        &&& self.header == decal_header_at(b, base)
        &&& opt_texts(self.texture_paths@) == Seq::new(
            3,
            |i: int| texture_slot(b, base + bytes::i64_at(b, base + 0x20), i),
        )
    }

    fn read_at(b: &[u8], base: usize) -> (r: SpaceStaticDecal) {
        let transform = visual::get_matrix(b, base + 0x28);
        SpaceStaticDecal {
            position: visual::matrix_position(&transform),
            transform,
            header: SpaceStaticDecalHeader {
                technique: bytes::get_u32(b, base),
                influence: bytes::get_u32(b, base + 0x04),
                field_08: bytes::get_u32(b, base + 0x08),
                field_0c: bytes::get_u32(b, base + 0x0c),
                variant: bytes::get_u32(b, base + 0x10),
                alpha: bytes::get_u32(b, base + 0x14),
                field_18: bytes::get_u32(b, base + 0x18),
                field_1c: bytes::get_u32(b, base + 0x1c),
            },
            texture_paths: read_static_decal_texture_paths(
                b,
                base,
                bytes::get_i64(b, base + 0x20),
            ),
        }
    }
}

impl SpaceRecord for SpaceUserObject {
    open spec fn size() -> int {
        SPACE_USER_OBJECT_SIZE as int
    }

    open spec fn stands_at(self, b: Seq<u8>, base: int) -> bool {
        let xml = text_at(b, base + 0x60);
        &&& self.transform@ == visual::matrix_at(b, base)
        &&& self.position@ == visual::matrix_at(b, base).subrange(12, 15)
        &&& text::opt_text(self.guid) == text_at(b, base + 0x40)
        &&& text::opt_text(self.object_type) == text_at(b, base + 0x50)
        &&& text::opt_text(self.properties_xml) == xml
        &&& self.properties_well_formed == (xml is Some && user_object_xml::xml_document(xml->0)
            is Some)
        &&& if self.properties_well_formed {
            let nodes = user_object_xml::xml_document(xml->0)->0;
            &&& text::texts(self.property_tags@) == user_object_xml::document_tags(nodes)
            &&& user_object_xml::value_views(self.property_values@)
                == user_object_xml::document_values(nodes)
        } else {
            self.property_tags@.len() == 0 && self.property_values@.len() == 0
        }
    }

    fn read_at(b: &[u8], base: usize) -> (r: SpaceUserObject) {
        let transform = visual::get_matrix(b, base);
        let properties_xml = read_text(b, base + 0x60);
        let (properties_well_formed, property_tags, property_values) = match &properties_xml {
            Some(xml) => user_object_xml::parse_user_object_properties(xml.as_str()),
            None => (false, Vec::new(), Vec::new()),
        };
        SpaceUserObject {
            position: visual::matrix_position(&transform),
            transform,
            guid: read_text(b, base + 0x40),
            object_type: read_text(b, base + 0x50),
            properties_xml,
            properties_well_formed,
            property_tags,
            property_values,
        }
    }
}

/// Count of table `k`.
pub open spec fn table_count(b: Seq<u8>, k: int) -> int {
    bytes::u32_at(b, 4 * k) as int
}

/// Offset of table `k`; a negative one counts as zero.
pub open spec fn table_offset(b: Seq<u8>, k: int) -> int {
    let at = bytes::i64_at(b, 0x20 + 8 * k);
    if at < 0 {
        0
    } else {
        at as int
    }
}

/// The error of a table that is not empty and does not end inside the file.
pub open spec fn space_table_error(b: Seq<u8>, k: int, stride: int) -> Option<
    merged_models::MergedModelsFault,
> {
    let (n, at) = (table_count(b, k), table_offset(b, k));
    if n > 0 && at + n * stride > b.len() {
        Some(
            merged_models::MergedModelsFault::DataTooShort {
                offset: at as u64,
                need: (n * stride) as u64,
                have: b.len() as u64,
            },
        )
    } else {
        None
    }
}

/// What is wrong with a file: its header, or the first table, in file order, that
/// does not end inside it.
pub open spec fn space_error(b: Seq<u8>) -> Option<
    merged_models::MergedModelsFault,
> {
    if b.len() < SPACE_HEADER_SIZE {
        Some(
            merged_models::MergedModelsFault::DataTooShort {
                offset: 0,
                need: SPACE_HEADER_SIZE as u64,
                have: b.len() as u64,
            },
        )
    } else if space_table_error(b, 0, 0x70) is Some {
        space_table_error(b, 0, 0x70)
    } else if space_table_error(b, 1, 0x58) is Some {
        space_table_error(b, 1, 0x58)
    } else if space_table_error(b, 2, 0x68) is Some {
        space_table_error(b, 2, 0x68)
    } else if space_table_error(b, 3, 0xc0) is Some {
        space_table_error(b, 3, 0xc0)
    } else if space_table_error(b, 4, 0x70) is Some {
        space_table_error(b, 4, 0x70)
    } else if space_table_error(b, 5, 0x68) is Some {
        space_table_error(b, 5, 0x68)
    } else {
        space_table_error(b, 6, 0x70)
    }
}

/// Reads count and offset of the eight tables.
pub fn parse_space_header(file_data: &[u8]) -> (r: Result<[(u32, u64); 8], MergedModelsError>)
    ensures
        match r {
            Err(e) => file_data@.len() < SPACE_HEADER_SIZE && space_error(file_data@) == Some(e@),
            Ok(h) => file_data@.len() >= SPACE_HEADER_SIZE && forall|k: int|
                0 <= k < 8 ==> (#[trigger] h@[k]).0 == table_count(file_data@, k) && h@[k].1
                    == table_offset(file_data@, k),
        },
{
    if file_data.len() < SPACE_HEADER_SIZE {
        return Err(
            MergedModelsError::DataTooShort {
                offset: 0,
                need: SPACE_HEADER_SIZE as u64,
                have: file_data.len() as u64,
            },
        );
    }
    let mut out: [(u32, u64); 8] = [(0u32, 0u64); 8];
    let mut k: usize = 0;
    while k < 8
        invariant
            k <= 8,
            file_data.len() >= SPACE_HEADER_SIZE,
            forall|j: int|
                0 <= j < k ==> (#[trigger] out@[j]).0 == table_count(file_data@, j) && out@[j].1
                    == table_offset(file_data@, j),
        decreases 8 - k,
    {
        let at: i64 = bytes::get_i64(file_data, 0x20 + 8 * k);
        let offset: u64 = if at < 0 {
            0
        } else {
            at as u64
        };
        out[k] = (bytes::get_u32(file_data, 4 * k), offset);
        k += 1;
    }
    Ok(out)
}

/// Whether `v` are the `n` records from `at` on.
pub open spec fn records_stand_at<T: SpaceRecord>(v: Seq<T>, b: Seq<u8>, at: int, n: int) -> bool {
    &&& v.len() == n
    &&& forall|i: int| 0 <= i < n ==> (#[trigger] v[i]).stands_at(b, at + i * T::size())
}

/// Reads a table of records.
fn parse_space_record_array<T: SpaceRecord>(
    file_data: &[u8],
    table: (u32, u64),
    stride: usize,
) -> (r: Result<Vec<T>, MergedModelsError>)
    requires
        stride == T::size(),
        0 < stride <= 0xc0,
    ensures
        match r {
            Err(e) => table.0 > 0 && table.1 + table.0 * stride > file_data@.len() && e@ == (
            merged_models::MergedModelsFault::DataTooShort {
                offset: table.1,
                need: (table.0 * stride) as u64,
                have: file_data@.len() as u64,
            }),
            Ok(v) => (table.0 == 0 || table.1 + table.0 * stride <= file_data@.len())
                && records_stand_at(v@, file_data@, table.1 as int, table.0 as int),
        },
{
    let (count, offset) = table;
    let mut out: Vec<T> = Vec::new();
    if count == 0 {
        return Ok(out);
    }
    assert(0 < count * stride <= 0xFFFF_FFFF * 0xc0) by (nonlinear_arith)
        requires
            0 < count <= 0xFFFF_FFFF,
            0 < stride <= 0xc0,
    ;
    let need: u64 = count as u64 * stride as u64;
    if offset as u128 + need as u128 > file_data.len() as u128 {
        return Err(
            MergedModelsError::DataTooShort { offset, need, have: file_data.len() as u64 },
        );
    }
    let at: usize = offset as usize;
    let mut i: u32 = 0;
    while i < count
        invariant
            i <= count,
            stride == T::size(),
            0 < stride,
            at == offset,
            at + count * stride <= file_data.len(),
            out@.len() == i,
            forall|k: int|
                0 <= k < i ==> (#[trigger] out@[k]).stands_at(file_data@, at + k * T::size()),
        decreases count - i,
    {
        assert(0 <= i * stride && i * stride + stride <= count * stride) by (nonlinear_arith)
            requires
                i + 1 <= count,
                0 < stride,
        ;
        out.push(T::read_at(file_data, at + i as usize * stride));
        i += 1;
    }
    Ok(out)
}

/// Whether these are the contents of a map file.
pub open spec fn contents_stand(s: SpaceInstances, b: Seq<u8>) -> bool {
    &&& records_stand_at(s.instances@, b, table_offset(b, 0), table_count(b, 0))
    &&& records_stand_at(s.obstacles@, b, table_offset(b, 1), table_count(b, 1))
    &&& records_stand_at(s.particles@, b, table_offset(b, 2), table_count(b, 2))
    &&& records_stand_at(s.point_lights@, b, table_offset(b, 3), table_count(b, 3))
    &&& records_stand_at(s.probes@, b, table_offset(b, 4), table_count(b, 4))
    &&& records_stand_at(s.static_decals@, b, table_offset(b, 5), table_count(b, 5))
    &&& records_stand_at(s.user_objects@, b, table_offset(b, 6), table_count(b, 6))
}

/// Reads the contents of a map.
pub fn parse_space_instances(file_data: &[u8]) -> (r: Result<SpaceInstances, MergedModelsError>)
    ensures
        match r {
            Err(e) => space_error(file_data@) == Some(e@),
            Ok(s) => {
                &&& space_error(file_data@) is None
                &&& contents_stand(s, file_data@)
            },
        },
{
    let header = parse_space_header(file_data)?;
    let instances = parse_space_record_array::<SpaceInstance>(
        file_data,
        header[0],
        SPACE_INSTANCE_SIZE,
    )?;
    let obstacles = parse_space_record_array::<SpaceObstacle>(
        file_data,
        header[1],
        SPACE_OBSTACLE_SIZE,
    )?;
    let particles = parse_space_record_array::<SpaceParticle>(
        file_data,
        header[2],
        SPACE_PARTICLE_SIZE,
    )?;
    let point_lights = parse_space_record_array::<SpacePointLight>(
        file_data,
        header[3],
        SPACE_POINT_LIGHT_SIZE,
    )?;
    let probes = parse_space_record_array::<SpaceProbe>(file_data, header[4], SPACE_PROBE_SIZE)?;
    let static_decals = parse_space_record_array::<SpaceStaticDecal>(
        file_data,
        header[5],
        SPACE_STATIC_DECAL_SIZE,
    )?;
    let user_objects = parse_space_record_array::<SpaceUserObject>(
        file_data,
        header[6],
        SPACE_USER_OBJECT_SIZE,
    )?;
    Ok(
        SpaceInstances {
            instances,
            obstacles,
            particles,
            point_lights,
            probes,
            static_decals,
            user_objects,
        },
    )
}

} // verus!
