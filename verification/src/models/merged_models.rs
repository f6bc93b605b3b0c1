//! Reader for merged model prototypes (`models.bin`).
//!
//! ```text
//! 0x00  u32 model count
//! 0x04  u16 skeleton count
//! 0x06  u16 bones per model
//! 0x08  i64 offset of the model records, 0xA8 bytes each
//! 0x10  i64 offset of the skeletons, 0x30 bytes each
//!
//! model record:
//!   +0x00  u64 path id
//!   +0x08  model prototype, 0x28 bytes
//!   +0x30  visual prototype, 0x70 bytes, which starts with a skeleton
//!   +0xA0  u32 index into the skeletons
//!   +0xA4  u16 first geometry mapping
//!   +0xA6  u16 geometry mapping count
//! ```
//!
//! Pointers inside a record are relative to the structure that holds them. An
//! array that does not end inside the file is an error, wherever its pointer
//! leads.
use vstd::prelude::*;

use crate::bytes;
use crate::models::visual;
use crate::models::visual::{
    BoundingBox, DyeEntry, Lod, Matrix4x4, ModelPrototype, RenderSet, VisualNodes,
    VisualPrototype,
};
use crate::text;

verus! {

pub const HEADER_SIZE: u64 = 0x18;

pub const MODEL_RECORD_SIZE: u32 = 0xA8;

pub const SKELETON_SIZE: u32 = 0x30;

pub const RENDER_SET_SIZE: u32 = 0x28;

pub const LOD_SIZE: u32 = 0x10;

pub const DYE_ENTRY_SIZE: u32 = 0x20;

/// What is wrong inside a record.
#[derive(Debug, Clone, Copy, PartialEq, Eq, Structural)]
pub enum RecordFault {
    /// A table of fixed-size entries does not end inside the file.
    DataTooShort { offset: u64, need: u64, have: u64 },
    /// An array of numbers or matrices does not end inside the file.
    ArrayTooShort { offset: u64 },
    /// The table of dyes does not end inside the file.
    DyesTooShort { offset: u64, need: u64, have: u64 },
    /// An array of a dye does not end inside the file.
    DyeArrayTooShort { offset: u64 },
}

/// A fault inside the dyes of a record.
pub open spec fn in_dyes(f: RecordFault) -> RecordFault {
    match f {
        RecordFault::DataTooShort { offset, need, have } => RecordFault::DyesTooShort {
            offset,
            need,
            have,
        },
        RecordFault::ArrayTooShort { offset } => RecordFault::DyeArrayTooShort { offset },
        _ => f,
    }
}

/// Why a model or space file was refused.
#[derive(Debug)]
pub enum MergedModelsError {
    /// The header or a table of records does not end inside the file.
    DataTooShort { offset: u64, need: u64, have: u64 },
    /// A record is broken.
    ParseError(String),
}

/// An error with its message as a character sequence.
pub enum MergedModelsFault {
    DataTooShort { offset: u64, need: u64, have: u64 },
    ParseError(Seq<char>),
}

impl View for MergedModelsError {
    type V = MergedModelsFault;

    open spec fn view(&self) -> MergedModelsFault {
        match self {
            MergedModelsError::DataTooShort { offset, need, have } => MergedModelsFault::DataTooShort {
                offset: *offset,
                need: *need,
                have: *have,
            },
            MergedModelsError::ParseError(m) => MergedModelsFault::ParseError(m@),
        }
    }
}

/// What readers of binary numbers say of input that ends too early.
pub const END_OF_INPUT: &'static str = "Parsing Error: ContextError { context: [], cause: None }";

pub open spec fn too_short_message(offset: u64, need: u64, have: u64) -> Seq<char> {
    "data too short: need "@ + text::decimal(need as int) + " bytes at offset 0x"@ + text::hex(
        offset as int,
    ) + ", have "@ + text::decimal(have as int)
}

pub open spec fn array_message(offset: u64) -> Seq<char> {
    "parse error: array at 0x"@ + text::hex(offset as int) + ": "@ + END_OF_INPUT@
}

/// The message of a fault inside a record.
pub open spec fn fault_message(f: RecordFault) -> Seq<char> {
    match f {
        RecordFault::DataTooShort { offset, need, have } => too_short_message(offset, need, have),
        RecordFault::ArrayTooShort { offset } => array_message(offset),
        RecordFault::DyesTooShort { offset, need, have } => "parse error: inline_mp dyes: "@
            + too_short_message(offset, need, have),
        RecordFault::DyeArrayTooShort { offset } => "parse error: inline_mp dyes: "@
            + array_message(offset),
    }
}

/// What is said of record `index` of a table: `label` is the name of the table and an
/// opening bracket.
pub open spec fn record_message(label: Seq<char>, index: int, f: RecordFault) -> Seq<char> {
    label + text::decimal(index) + "]: "@ + fault_message(f)
}

/// The message of an error.
pub open spec fn error_message(e: MergedModelsFault) -> Seq<char> {
    match e {
        MergedModelsFault::DataTooShort { offset, need, have } => too_short_message(
            offset,
            need,
            have,
        ),
        MergedModelsFault::ParseError(m) => "parse error: "@ + m,
    }
}

fn describe_short_data(offset: u64, need: u64, have: u64) -> (r: String)
    ensures
        r@ == too_short_message(offset, need, have),
{
    let mut out = text::concat("data too short: need ", text::to_decimal(need).as_str());
    out.append(" bytes at offset 0x");
    out.append(text::to_hex(offset).as_str());
    out.append(", have ");
    out.append(text::to_decimal(have).as_str());
    out
}

fn describe_array(offset: u64) -> (r: String)
    ensures
        r@ == array_message(offset),
{
    let mut out = text::concat("parse error: array at 0x", text::to_hex(offset).as_str());
    out.append(": ");
    out.append(END_OF_INPUT);
    out
}

impl RecordFault {
    /// The message of a fault.
    pub fn message(&self) -> (r: String)
        ensures
            r@ == fault_message(*self),
    {
        match self {
            RecordFault::DataTooShort { offset, need, have } => {
                describe_short_data(*offset, *need, *have)
            },
            RecordFault::ArrayTooShort { offset } => describe_array(*offset),
            RecordFault::DyesTooShort { offset, need, have } => text::concat(
                "parse error: inline_mp dyes: ",
                describe_short_data(*offset, *need, *have).as_str(),
            ),
            RecordFault::DyeArrayTooShort { offset } => text::concat(
                "parse error: inline_mp dyes: ",
                describe_array(*offset).as_str(),
            ),
        }
    }

    fn within_dyes(self) -> (r: RecordFault)
        ensures
            r == in_dyes(self),
    {
        match self {
            RecordFault::DataTooShort { offset, need, have } => RecordFault::DyesTooShort {
                offset,
                need,
                have,
            },
            RecordFault::ArrayTooShort { offset } => RecordFault::DyeArrayTooShort { offset },
            _ => self,
        }
    }
}

/// The error of a broken record.
fn refuse_record(label: &str, index: u64, fault: RecordFault) -> (r: MergedModelsError)
    ensures
        r@ == MergedModelsFault::ParseError(record_message(label@, index as int, fault)),
{
    let mut out = text::concat3(label, text::to_decimal(index).as_str(), "]: ");
    out.append(fault.message().as_str());
    MergedModelsError::ParseError(out)
}

impl MergedModelsError {
    /// The message of an error.
    pub fn message(&self) -> (r: String)
        ensures
            r@ == error_message(self@),
    {
        match self {
            MergedModelsError::DataTooShort { offset, need, have } => {
                describe_short_data(*offset, *need, *have)
            },
            MergedModelsError::ParseError(m) => text::concat("parse error: ", m.as_str()),
        }
    }
}

/// A model file.
#[derive(Debug)]
pub struct MergedModels {
    pub models: Vec<MergedModelRecord>,
    pub skeletons: Vec<SkeletonProto>,
    pub model_bone_count: u16,
}

/// One model record.
#[derive(Debug)]
pub struct MergedModelRecord {
    pub path_id: u64,
    pub model_proto: ModelPrototype,
    pub visual_proto: VisualPrototype,
    pub skeleton_proto_index: u32,
    pub render_set_geometry_start_idx: u16,
    pub render_set_geometry_count: u16,
}

/// A skeleton that several models share.
#[derive(Debug)]
pub struct SkeletonProto {
    pub nodes: VisualNodes,
}

/// The first of two faults.
pub open spec fn first_of(a: Option<RecordFault>, b: Option<RecordFault>) -> Option<RecordFault> {
    if a is Some {
        a
    } else {
        b
    }
}

/// The fault of an array that does not end inside the file. An empty array never
/// has one.
pub open spec fn array_fault(b: Seq<u8>, at: int, count: int, stride: int) -> Option<RecordFault> {
    if count > 0 && !bytes::array_fits(b.len() as int, at, count, stride) {
        Some(RecordFault::ArrayTooShort { offset: at as u64 })
    } else {
        None
    }
}

/// The fault of a table of entries that does not end inside the file.
pub open spec fn table_fault(b: Seq<u8>, at: int, count: int, stride: int) -> Option<RecordFault> {
    if !bytes::array_fits(b.len() as int, at, count, stride) {
        Some(
            RecordFault::DataTooShort {
                offset: at as u64,
                need: (count * stride) as u64,
                have: b.len() as u64,
            },
        )
    } else {
        None
    }
}

fn read_u32s(b: &[u8], at: u64, count: u32) -> (r: Result<Vec<u32>, RecordFault>)
    ensures
        match r {
            Err(f) => array_fault(b@, at as int, count as int, 4) == Some(f),
            Ok(v) => array_fault(b@, at as int, count as int, 4) is None && v@ == bytes::u32s_at(
                b@,
                at as int,
                count as int,
            ),
        },
{
    if count == 0 {
        let out: Vec<u32> = Vec::new();
        assert(out@ =~= bytes::u32s_at(b@, at as int, 0));
        Ok(out)
    } else if bytes::fits(b, at, count, 4) {
        Ok(bytes::get_u32s(b, at as usize, count as usize))
    } else {
        Err(RecordFault::ArrayTooShort { offset: at })
    }
}

fn read_u16s(b: &[u8], at: u64, count: u32) -> (r: Result<Vec<u16>, RecordFault>)
    ensures
        match r {
            Err(f) => array_fault(b@, at as int, count as int, 2) == Some(f),
            Ok(v) => array_fault(b@, at as int, count as int, 2) is None && v@ == bytes::u16s_at(
                b@,
                at as int,
                count as int,
            ),
        },
{
    if count == 0 {
        let out: Vec<u16> = Vec::new();
        assert(out@ =~= bytes::u16s_at(b@, at as int, 0));
        Ok(out)
    } else if bytes::fits(b, at, count, 2) {
        Ok(bytes::get_u16s(b, at as usize, count as usize))
    } else {
        Err(RecordFault::ArrayTooShort { offset: at })
    }
}

fn read_u64s(b: &[u8], at: u64, count: u32) -> (r: Result<Vec<u64>, RecordFault>)
    ensures
        match r {
            Err(f) => array_fault(b@, at as int, count as int, 8) == Some(f),
            Ok(v) => array_fault(b@, at as int, count as int, 8) is None && v@ == bytes::u64s_at(
                b@,
                at as int,
                count as int,
            ),
        },
{
    if count == 0 {
        let out: Vec<u64> = Vec::new();
        assert(out@ =~= bytes::u64s_at(b@, at as int, 0));
        Ok(out)
    } else if bytes::fits(b, at, count, 8) {
        Ok(bytes::get_u64s(b, at as usize, count as usize))
    } else {
        Err(RecordFault::ArrayTooShort { offset: at })
    }
}

fn read_matrices(b: &[u8], at: u64, count: u32) -> (r: Result<Vec<Matrix4x4>, RecordFault>)
    ensures
        match r {
            Err(f) => array_fault(b@, at as int, count as int, 64) == Some(f),
            Ok(v) => array_fault(b@, at as int, count as int, 64) is None && visual::matrix_views(
                v@,
            ) == visual::matrices_at(b@, at as int, count as int),
        },
{
    if count == 0 {
        let out: Vec<Matrix4x4> = Vec::new();
        assert(visual::matrix_views(out@) =~= visual::matrices_at(b@, at as int, 0));
        Ok(out)
    } else if bytes::fits(b, at, count, 64) {
        Ok(visual::get_matrices(b, at as usize, count as usize))
    } else {
        Err(RecordFault::ArrayTooShort { offset: at })
    }
}

/// The offset that the pointer at `base + field` stands for.
pub open spec fn pointer_at(b: Seq<u8>, base: int, field: int) -> int {
    bytes::resolved(base, bytes::i64_at(b, base + field) as int)
}

fn read_pointer(b: &[u8], base: usize, field: usize) -> (r: u64)
    requires
        base + field + 8 <= b.len(),
    ensures
        r == pointer_at(b@, base as int, field as int),
{
    bytes::resolve(base as u64, bytes::get_i64(b, base + field))
}

/// What is wrong with the skeleton at `base`: the first array, in field order,
/// that does not end inside the file.
pub open spec fn nodes_fault(b: Seq<u8>, base: int) -> Option<RecordFault> {
    let n = bytes::u32_at(b, base) as int;
    if base + 0x30 > b.len() {
        table_fault(b, base, 1, 0x30)
    } else {
        first_of(
            array_fault(b, pointer_at(b, base, 0x08), n, 4),
            first_of(
                array_fault(b, pointer_at(b, base, 0x10), n, 2),
                first_of(
                    array_fault(b, pointer_at(b, base, 0x18), n, 4),
                    first_of(
                        array_fault(b, pointer_at(b, base, 0x20), n, 64),
                        array_fault(b, pointer_at(b, base, 0x28), n, 2),
                    ),
                ),
            ),
        )
    }
}

/// Whether `nodes` are those of the skeleton at `base`.
pub open spec fn nodes_stand_at(nodes: VisualNodes, b: Seq<u8>, base: int) -> bool {
    let n = bytes::u32_at(b, base) as int;
    &&& nodes.name_map_name_ids@ == bytes::u32s_at(b, pointer_at(b, base, 0x08), n)
    &&& nodes.name_map_node_ids@ == bytes::u16s_at(b, pointer_at(b, base, 0x10), n)
    &&& nodes.name_ids@ == bytes::u32s_at(b, pointer_at(b, base, 0x18), n)
    &&& visual::matrix_views(nodes.matrices@) == visual::matrices_at(
        b,
        pointer_at(b, base, 0x20),
        n,
    )
    &&& nodes.parent_ids@ == bytes::u16s_at(b, pointer_at(b, base, 0x28), n)
}

/// Reads the nodes of a skeleton.
pub fn parse_skeleton_nodes(data: &[u8], skel_base: usize) -> (r: Result<VisualNodes, RecordFault>)
    ensures
        match r {
            Err(f) => nodes_fault(data@, skel_base as int) == Some(f),
            Ok(nodes) => nodes_fault(data@, skel_base as int) is None && nodes_stand_at(
                nodes,
                data@,
                skel_base as int,
            ),
        },
{
    if data.len() < 0x30 || skel_base > data.len() - 0x30 {
        return Err(
            RecordFault::DataTooShort {
                offset: skel_base as u64,
                need: 0x30,
                have: data.len() as u64,
            },
        );
    }
    let n: u32 = bytes::get_u32(data, skel_base);
    let name_map_name_ids = read_u32s(data, read_pointer(data, skel_base, 0x08), n)?;
    let name_map_node_ids = read_u16s(data, read_pointer(data, skel_base, 0x10), n)?;
    let name_ids = read_u32s(data, read_pointer(data, skel_base, 0x18), n)?;
    let matrices = read_matrices(data, read_pointer(data, skel_base, 0x20), n)?;
    let parent_ids = read_u16s(data, read_pointer(data, skel_base, 0x28), n)?;
    Ok(VisualNodes { name_map_name_ids, name_map_node_ids, name_ids, matrices, parent_ids })
}

/// Reads a shared skeleton.
pub fn parse_skeleton_proto(data: &[u8], skel_base: usize) -> (r: Result<
    SkeletonProto,
    RecordFault,
>)
    ensures
        match r {
            Err(f) => nodes_fault(data@, skel_base as int) == Some(f),
            Ok(s) => nodes_fault(data@, skel_base as int) is None && nodes_stand_at(
                s.nodes,
                data@,
                skel_base as int,
            ),
        },
{
    let nodes = parse_skeleton_nodes(data, skel_base)?;
    Ok(SkeletonProto { nodes })
}

/// Reads a one-byte flag.
pub open spec fn flag_at(b: Seq<u8>, at: int) -> bool {
    b[at] != 0
}

/// What is wrong with the render set at `base`.
pub open spec fn render_set_fault(b: Seq<u8>, base: int) -> Option<RecordFault> {
    array_fault(b, pointer_at(b, base, 0x20), b[base + 0x19] as int, 4)
}

/// What is wrong with the first broken one of `n` render sets from `at` on.
pub open spec fn render_set_faults(b: Seq<u8>, at: int, n: int) -> Option<RecordFault>
    decreases n,
{
    if n <= 0 {
        None
    } else {
        first_of(render_set_faults(b, at, n - 1), render_set_fault(b, at + 0x28 * (n - 1)))
    }
}

/// Whether `rs` is the render set at `base`.
pub open spec fn render_set_stands_at(rs: RenderSet, b: Seq<u8>, base: int) -> bool {
    &&& rs.name_id == bytes::u32_at(b, base)
    &&& rs.material_name_id == bytes::u32_at(b, base + 0x04)
    &&& rs.vertices_mapping_id == bytes::u32_at(b, base + 0x08)
    &&& rs.indices_mapping_id == bytes::u32_at(b, base + 0x0C)
    &&& rs.material_mfm_path_id == bytes::u64_at(b, base + 0x10)
    &&& rs.skinned == flag_at(b, base + 0x18)
    &&& rs.node_name_ids@ == bytes::u32s_at(
        b,
        pointer_at(b, base, 0x20),
        b[base + 0x19] as int,
    )
}

/// Reads the render sets of a visual.
pub fn parse_render_sets_merged(data: &[u8], offset: u64, count: u16) -> (r: Result<
    Vec<RenderSet>,
    RecordFault,
>)
    ensures
        ({
            let fault = first_of(
                table_fault(data@, offset as int, count as int, 0x28),
                render_set_faults(data@, offset as int, count as int),
            );
            match r {
                Err(f) => fault == Some(f),
                Ok(v) => {
                    &&& fault is None
                    &&& v@.len() == count
                    &&& forall|i: int|
                        0 <= i < count ==> render_set_stands_at(
                            #[trigger] v@[i],
                            data@,
                            offset + 0x28 * i,
                        )
                },
            }
        }),
{
    if !bytes::fits(data, offset, count as u32, RENDER_SET_SIZE) {
        return Err(
            RecordFault::DataTooShort {
                offset,
                need: count as u64 * RENDER_SET_SIZE as u64,
                have: data.len() as u64,
            },
        );
    }
    let at: usize = offset as usize;
    let mut out: Vec<RenderSet> = Vec::new();
    let mut i: usize = 0;
    while i < count as usize
        invariant
            i <= count,
            at == offset,
            at + 0x28 * count <= data.len(),
            table_fault(data@, offset as int, count as int, 0x28) is None,
            render_set_faults(data@, offset as int, i as int) is None,
            out@.len() == i,
            forall|k: int|
                0 <= k < i ==> render_set_stands_at(#[trigger] out@[k], data@, offset + 0x28 * k),
        decreases count - i,
    {
        let base: usize = at + 0x28 * i;
        let names = read_u32s(data, read_pointer(data, base, 0x20), data[base + 0x19] as u32);
        proof {
            render_set_faults_prefix(data@, offset as int, i + 1, count as int);
        }
        let node_name_ids = names?;
        out.push(
            RenderSet {
                name_id: bytes::get_u32(data, base),
                material_name_id: bytes::get_u32(data, base + 0x04),
                vertices_mapping_id: bytes::get_u32(data, base + 0x08),
                indices_mapping_id: bytes::get_u32(data, base + 0x0C),
                material_mfm_path_id: bytes::get_u64(data, base + 0x10),
                skinned: data[base + 0x18] != 0,
                node_name_ids,
            },
        );
        i += 1;
    }
    Ok(out)
}

proof fn render_set_faults_prefix(b: Seq<u8>, at: int, k: int, n: int)
    requires
        k <= n,
    ensures
        render_set_faults(b, at, k) is Some ==> render_set_faults(b, at, n)
            == render_set_faults(b, at, k),
    decreases n - k,
{
    if k < n {
        render_set_faults_prefix(b, at, k, n - 1);
    }
}

/// What is wrong with the level of detail at `base`.
pub open spec fn lod_fault(b: Seq<u8>, base: int) -> Option<RecordFault> {
    array_fault(b, pointer_at(b, base, 0x08), bytes::u16_at(b, base + 0x06) as int, 4)
}

/// What is wrong with the first broken one of `n` levels of detail from `at` on.
pub open spec fn lod_faults(b: Seq<u8>, at: int, n: int) -> Option<RecordFault>
    decreases n,
{
    if n <= 0 {
        None
    } else {
        first_of(lod_faults(b, at, n - 1), lod_fault(b, at + 0x10 * (n - 1)))
    }
}

/// Whether `lod` is the level of detail at `base`.
pub open spec fn lod_stands_at(lod: Lod, b: Seq<u8>, base: int) -> bool {
    &&& lod.extent == bytes::u32_at(b, base)
    &&& lod.casts_shadow == flag_at(b, base + 0x04)
    &&& lod.render_set_names@ == bytes::u32s_at(
        b,
        pointer_at(b, base, 0x08),
        bytes::u16_at(b, base + 0x06) as int,
    )
}

/// Reads the levels of detail of a visual.
pub fn parse_lods_merged(data: &[u8], offset: u64, count: u16) -> (r: Result<Vec<Lod>, RecordFault>)
    ensures
        ({
            let fault = first_of(
                table_fault(data@, offset as int, count as int, 0x10),
                lod_faults(data@, offset as int, count as int),
            );
            match r {
                Err(f) => fault == Some(f),
                Ok(v) => {
                    &&& fault is None
                    &&& v@.len() == count
                    &&& forall|i: int|
                        0 <= i < count ==> lod_stands_at(
                            #[trigger] v@[i],
                            data@,
                            offset + 0x10 * i,
                        )
                },
            }
        }),
{
    if !bytes::fits(data, offset, count as u32, LOD_SIZE) {
        return Err(
            RecordFault::DataTooShort {
                offset,
                need: count as u64 * LOD_SIZE as u64,
                have: data.len() as u64,
            },
        );
    }
    let at: usize = offset as usize;
    let mut out: Vec<Lod> = Vec::new();
    let mut i: usize = 0;
    while i < count as usize
        invariant
            i <= count,
            at == offset,
            at + 0x10 * count <= data.len(),
            table_fault(data@, offset as int, count as int, 0x10) is None,
            lod_faults(data@, offset as int, i as int) is None,
            out@.len() == i,
            forall|k: int|
                0 <= k < i ==> lod_stands_at(#[trigger] out@[k], data@, offset + 0x10 * k),
        decreases count - i,
    {
        let base: usize = at + 0x10 * i;
        let names = read_u32s(
            data,
            read_pointer(data, base, 0x08),
            bytes::get_u16(data, base + 0x06) as u32,
        );
        proof {
            lod_faults_prefix(data@, offset as int, i + 1, count as int);
        }
        let render_set_names = names?;
        out.push(
            Lod {
                extent: bytes::get_u32(data, base),
                casts_shadow: data[base + 0x04] != 0,
                render_set_names,
            },
        );
        i += 1;
    }
    Ok(out)
}

proof fn lod_faults_prefix(b: Seq<u8>, at: int, k: int, n: int)
    requires
        k <= n,
    ensures
        lod_faults(b, at, k) is Some ==> lod_faults(b, at, n) == lod_faults(b, at, k),
    decreases n - k,
{
    if k < n {
        lod_faults_prefix(b, at, k, n - 1);
    }
}

/// What is wrong with the dye at `base`.
pub open spec fn dye_fault(b: Seq<u8>, base: int) -> Option<RecordFault> {
    let n = bytes::u32_at(b, base + 0x08) as int;
    first_of(
        array_fault(b, pointer_at(b, base, 0x10), n, 4),
        array_fault(b, pointer_at(b, base, 0x18), n, 8),
    )
}

/// What is wrong with the first broken one of `n` dyes from `at` on.
pub open spec fn dye_faults(b: Seq<u8>, at: int, n: int) -> Option<RecordFault>
    decreases n,
{
    if n <= 0 {
        None
    } else {
        first_of(dye_faults(b, at, n - 1), dye_fault(b, at + 0x20 * (n - 1)))
    }
}

/// Whether `dye` is the dye at `base`.
pub open spec fn dye_stands_at(dye: DyeEntry, b: Seq<u8>, base: int) -> bool {
    let n = bytes::u32_at(b, base + 0x08) as int;
    &&& dye.matter_id == bytes::u32_at(b, base)
    &&& dye.replaces_id == bytes::u32_at(b, base + 0x04)
    &&& dye.tint_name_ids@ == bytes::u32s_at(b, pointer_at(b, base, 0x10), n)
    &&& dye.tint_material_ids@ == bytes::u64s_at(b, pointer_at(b, base, 0x18), n)
}

/// Reads one dye.
fn parse_dye_entry(data: &[u8], base: usize) -> (r: Result<DyeEntry, RecordFault>)
    requires
        base + 0x20 <= data.len(),
    ensures
        match r {
            Err(f) => dye_fault(data@, base as int) == Some(f),
            Ok(dye) => dye_fault(data@, base as int) is None && dye_stands_at(
                dye,
                data@,
                base as int,
            ),
        },
{
    let n: u32 = bytes::get_u32(data, base + 0x08);
    let tint_name_ids = read_u32s(data, read_pointer(data, base, 0x10), n)?;
    let tint_material_ids = read_u64s(data, read_pointer(data, base, 0x18), n)?;
    Ok(
        DyeEntry {
            matter_id: bytes::get_u32(data, base),
            replaces_id: bytes::get_u32(data, base + 0x04),
            tint_name_ids,
            tint_material_ids,
        },
    )
}

/// Reads the dyes of a model prototype.
pub fn parse_dye_entries(data: &[u8], offset: u64, count: u8) -> (r: Result<
    Vec<DyeEntry>,
    RecordFault,
>)
    ensures
        ({
            let fault = first_of(
                table_fault(data@, offset as int, count as int, 0x20),
                dye_faults(data@, offset as int, count as int),
            );
            match r {
                Err(f) => fault == Some(f),
                Ok(v) => {
                    &&& fault is None
                    &&& v@.len() == count
                    &&& forall|i: int|
                        0 <= i < count ==> dye_stands_at(
                            #[trigger] v@[i],
                            data@,
                            offset + 0x20 * i,
                        )
                },
            }
        }),
{
    if !bytes::fits(data, offset, count as u32, DYE_ENTRY_SIZE) {
        return Err(
            RecordFault::DataTooShort {
                offset,
                need: count as u64 * DYE_ENTRY_SIZE as u64,
                have: data.len() as u64,
            },
        );
    }
    let at: usize = offset as usize;
    let mut out: Vec<DyeEntry> = Vec::new();
    let mut i: usize = 0;
    while i < count as usize
        invariant
            i <= count,
            at == offset,
            at + 0x20 * count <= data.len(),
            table_fault(data@, offset as int, count as int, 0x20) is None,
            dye_faults(data@, offset as int, i as int) is None,
            out@.len() == i,
            forall|k: int|
                0 <= k < i ==> dye_stands_at(#[trigger] out@[k], data@, offset + 0x20 * k),
        decreases count - i,
    {
        let dye = parse_dye_entry(data, at + 0x20 * i);
        proof {
            dye_faults_prefix(data@, offset as int, i + 1, count as int);
        }
        out.push(dye?);
        i += 1;
    }
    Ok(out)
}

proof fn dye_faults_prefix(b: Seq<u8>, at: int, k: int, n: int)
    requires
        k <= n,
    ensures
        dye_faults(b, at, k) is Some ==> dye_faults(b, at, n) == dye_faults(b, at, k),
    decreases n - k,
{
    if k < n {
        dye_faults_prefix(b, at, k, n - 1);
    }
}

/// What is wrong with the model prototype at `base`.
pub open spec fn model_proto_fault(b: Seq<u8>, base: int) -> Option<RecordFault> {
    let dyes = b[base + 0x0B] as int;
    if base + 0x28 > b.len() {
        table_fault(b, base, 1, 0x28)
    } else if dyes > 0 {
        match first_of(
            table_fault(b, pointer_at(b, base, 0x20), dyes, 0x20),
            dye_faults(b, pointer_at(b, base, 0x20), dyes),
        ) {
            Some(f) => Some(in_dyes(f)),
            None => None,
        }
    } else {
        None
    }
}

/// Whether `proto` is the model prototype at `base`. Extender and animation ids
/// are not part of a merged record.
pub open spec fn model_proto_stands_at(proto: ModelPrototype, b: Seq<u8>, base: int) -> bool {
    &&& proto.visual_resource_id == bytes::u64_at(b, base)
    &&& proto.misc_type == b[base + 0x09]
    &&& proto.skel_ext_res_ids@.len() == 0
    &&& proto.animations@.len() == 0
    &&& proto.dyes@.len() == b[base + 0x0B]
    &&& forall|i: int|
        0 <= i < proto.dyes@.len() ==> dye_stands_at(
            #[trigger] proto.dyes@[i],
            b,
            pointer_at(b, base, 0x20) + 0x20 * i,
        )
}

/// Reads the model prototype of a merged record.
pub fn parse_inline_model_proto_header(data: &[u8], base: usize) -> (r: Result<
    ModelPrototype,
    RecordFault,
>)
    ensures
        match r {
            Err(f) => model_proto_fault(data@, base as int) == Some(f),
            Ok(proto) => model_proto_fault(data@, base as int) is None && model_proto_stands_at(
                proto,
                data@,
                base as int,
            ),
        },
{
    if data.len() < 0x28 || base > data.len() - 0x28 {
        return Err(
            RecordFault::DataTooShort { offset: base as u64, need: 0x28, have: data.len() as u64 },
        );
    }
    let count: u8 = data[base + 0x0B];
    let dyes: Vec<DyeEntry> = if count > 0 {
        match parse_dye_entries(data, read_pointer(data, base, 0x20), count) {
            Ok(dyes) => dyes,
            Err(fault) => {
                return Err(fault.within_dyes());
            },
        }
    } else {
        Vec::new()
    };
    Ok(
        ModelPrototype {
            visual_resource_id: bytes::get_u64(data, base),
            misc_type: data[base + 0x09],
            skel_ext_res_ids: Vec::new(),
            animations: Vec::new(),
            dyes,
        },
    )
}

/// What is wrong with the visual prototype at `base`.
pub open spec fn visual_fault(b: Seq<u8>, base: int) -> Option<RecordFault> {
    let sets = bytes::u16_at(b, base + 0x3A) as int;
    let lods = bytes::u16_at(b, base + 0x3C) as int;
    if base + 0x70 > b.len() {
        table_fault(b, base, 1, 0x70)
    } else {
        first_of(
            nodes_fault(b, base),
            first_of(
                if sets > 0 {
                    first_of(
                        table_fault(b, pointer_at(b, base, 0x60), sets, 0x28),
                        render_set_faults(b, pointer_at(b, base, 0x60), sets),
                    )
                } else {
                    None
                },
                if lods > 0 {
                    first_of(
                        table_fault(b, pointer_at(b, base, 0x68), lods, 0x10),
                        lod_faults(b, pointer_at(b, base, 0x68), lods),
                    )
                } else {
                    None
                },
            ),
        )
    }
}

/// Whether `v` is the visual prototype at `base`.
pub open spec fn visual_stands_at(v: VisualPrototype, b: Seq<u8>, base: int) -> bool {
    &&& nodes_stand_at(v.nodes, b, base)
    &&& v.merged_geometry_path_id == bytes::u64_at(b, base + 0x30)
    &&& v.underwater_model == flag_at(b, base + 0x38)
    &&& v.abovewater_model == flag_at(b, base + 0x39)
    &&& v.bounding_box.min@ == bytes::u32s_at(b, base + 0x40, 3)
    &&& v.bounding_box.max@ == bytes::u32s_at(b, base + 0x50, 3)
    &&& v.render_sets@.len() == bytes::u16_at(b, base + 0x3A)
    &&& forall|i: int|
        0 <= i < v.render_sets@.len() ==> render_set_stands_at(
            #[trigger] v.render_sets@[i],
            b,
            pointer_at(b, base, 0x60) + 0x28 * i,
        )
    &&& v.lods@.len() == bytes::u16_at(b, base + 0x3C)
    &&& forall|i: int|
        0 <= i < v.lods@.len() ==> lod_stands_at(
            #[trigger] v.lods@[i],
            b,
            pointer_at(b, base, 0x68) + 0x10 * i,
        )
}

fn read_corner(b: &[u8], at: usize) -> (r: [u32; 3])
    requires
        at + 12 <= b.len(),
    ensures
        r@ == bytes::u32s_at(b@, at as int, 3),
{
    let r: [u32; 3] = [bytes::get_u32(b, at), bytes::get_u32(b, at + 4), bytes::get_u32(b, at + 8)];
    assert(r@ =~= bytes::u32s_at(b@, at as int, 3));
    r
}

/// Reads the visual prototype of a merged record.
pub fn parse_visual_proto_inline(data: &[u8], vp_base: usize) -> (r: Result<
    VisualPrototype,
    RecordFault,
>)
    ensures
        match r {
            Err(f) => visual_fault(data@, vp_base as int) == Some(f),
            Ok(v) => visual_fault(data@, vp_base as int) is None && visual_stands_at(
                v,
                data@,
                vp_base as int,
            ),
        },
{
    if data.len() < 0x70 || vp_base > data.len() - 0x70 {
        return Err(
            RecordFault::DataTooShort {
                offset: vp_base as u64,
                need: 0x70,
                have: data.len() as u64,
            },
        );
    }
    let nodes = parse_skeleton_nodes(data, vp_base)?;
    let render_sets_count: u16 = bytes::get_u16(data, vp_base + 0x3A);
    let lods_count: u16 = bytes::get_u16(data, vp_base + 0x3C);
    let render_sets: Vec<RenderSet> = if render_sets_count > 0 {
        parse_render_sets_merged(data, read_pointer(data, vp_base, 0x60), render_sets_count)?
    } else {
        Vec::new()
    };
    let lods: Vec<Lod> = if lods_count > 0 {
        parse_lods_merged(data, read_pointer(data, vp_base, 0x68), lods_count)?
    } else {
        Vec::new()
    };
    Ok(
        VisualPrototype {
            nodes,
            merged_geometry_path_id: bytes::get_u64(data, vp_base + 0x30),
            underwater_model: data[vp_base + 0x38] != 0,
            abovewater_model: data[vp_base + 0x39] != 0,
            bounding_box: BoundingBox {
                min: read_corner(data, vp_base + 0x40),
                max: read_corner(data, vp_base + 0x50),
            },
            render_sets,
            lods,
        },
    )
}

/// What is wrong with the model record at `base`.
pub open spec fn model_fault(b: Seq<u8>, base: int) -> Option<RecordFault> {
    if base + 0xA8 > b.len() {
        table_fault(b, base, 1, 0xA8)
    } else {
        first_of(model_proto_fault(b, base + 0x08), visual_fault(b, base + 0x30))
    }
}

/// Whether `m` is the model record at `base`.
pub open spec fn model_stands_at(m: MergedModelRecord, b: Seq<u8>, base: int) -> bool {
    &&& m.path_id == bytes::u64_at(b, base)
    &&& model_proto_stands_at(m.model_proto, b, base + 0x08)
    &&& visual_stands_at(m.visual_proto, b, base + 0x30)
    &&& m.skeleton_proto_index == bytes::u32_at(b, base + 0xA0)
    &&& m.render_set_geometry_start_idx == bytes::u16_at(b, base + 0xA4)
    &&& m.render_set_geometry_count == bytes::u16_at(b, base + 0xA6)
}

/// Reads one model record.
pub fn parse_model_record(data: &[u8], rec: usize) -> (r: Result<MergedModelRecord, RecordFault>)
    ensures
        match r {
            Err(f) => model_fault(data@, rec as int) == Some(f),
            Ok(m) => model_fault(data@, rec as int) is None && model_stands_at(
                m,
                data@,
                rec as int,
            ),
        },
{
    if data.len() < 0xA8 || rec > data.len() - 0xA8 {
        return Err(
            RecordFault::DataTooShort { offset: rec as u64, need: 0xA8, have: data.len() as u64 },
        );
    }
    let model_proto = parse_inline_model_proto_header(data, rec + 0x08)?;
    let visual_proto = parse_visual_proto_inline(data, rec + 0x30)?;
    Ok(
        MergedModelRecord {
            path_id: bytes::get_u64(data, rec),
            model_proto,
            visual_proto,
            skeleton_proto_index: bytes::get_u32(data, rec + 0xA0),
            render_set_geometry_start_idx: bytes::get_u16(data, rec + 0xA4),
            render_set_geometry_count: bytes::get_u16(data, rec + 0xA6),
        },
    )
}

/// The first broken one of the first `n` model records, with its number.
pub open spec fn model_faults(b: Seq<u8>, at: int, n: int) -> Option<(int, RecordFault)>
    decreases n,
{
    if n <= 0 {
        None
    } else if model_faults(b, at, n - 1) is Some {
        model_faults(b, at, n - 1)
    } else {
        match model_fault(b, at + 0xA8 * (n - 1)) {
            Some(f) => Some((n - 1, f)),
            None => None,
        }
    }
}

/// The first broken one of the first `n` skeletons, with its number.
pub open spec fn skeleton_faults(b: Seq<u8>, at: int, n: int) -> Option<(int, RecordFault)>
    decreases n,
{
    if n <= 0 {
        None
    } else if skeleton_faults(b, at, n - 1) is Some {
        skeleton_faults(b, at, n - 1)
    } else {
        match nodes_fault(b, at + 0x30 * (n - 1)) {
            Some(f) => Some((n - 1, f)),
            None => None,
        }
    }
}

proof fn model_faults_prefix(b: Seq<u8>, at: int, k: int, n: int)
    requires
        k <= n,
    ensures
        model_faults(b, at, k) is Some ==> model_faults(b, at, n) == model_faults(b, at, k),
    decreases n - k,
{
    if k < n {
        model_faults_prefix(b, at, k, n - 1);
    }
}

proof fn skeleton_faults_prefix(b: Seq<u8>, at: int, k: int, n: int)
    requires
        k <= n,
    ensures
        skeleton_faults(b, at, k) is Some ==> skeleton_faults(b, at, n) == skeleton_faults(
            b,
            at,
            k,
        ),
    decreases n - k,
{
    if k < n {
        skeleton_faults_prefix(b, at, k, n - 1);
    }
}

/// The error of a table of records that does not end inside the file.
pub open spec fn table_error(b: Seq<u8>, at: int, count: int, stride: int) -> MergedModelsFault {
    MergedModelsFault::DataTooShort {
        offset: at as u64,
        need: (count * stride) as u64,
        have: b.len() as u64,
    }
}

/// What is wrong with a model file: its header, the table of models, the first
/// broken model, the table of skeletons, the first broken skeleton.
pub open spec fn merged_models_error(b: Seq<u8>) -> Option<MergedModelsFault> {
    let models = bytes::u32_at(b, 0) as int;
    let skeletons = bytes::u16_at(b, 4) as int;
    let models_at = pointer_at(b, 0, 0x08);
    let skeletons_at = pointer_at(b, 0, 0x10);
    if b.len() < HEADER_SIZE {
        Some(table_error(b, 0, 1, 0x18))
    } else if !bytes::array_fits(b.len() as int, models_at, models, 0xA8) {
        Some(table_error(b, models_at, models, 0xA8))
    } else if model_faults(b, models_at, models) is Some {
        let (i, fault) = model_faults(b, models_at, models)->0;
        Some(MergedModelsFault::ParseError(record_message("model["@, i, fault)))
    } else if !bytes::array_fits(b.len() as int, skeletons_at, skeletons, 0x30) {
        Some(table_error(b, skeletons_at, skeletons, 0x30))
    } else if skeleton_faults(b, skeletons_at, skeletons) is Some {
        let (i, fault) = skeleton_faults(b, skeletons_at, skeletons)->0;
        Some(MergedModelsFault::ParseError(record_message("skeleton["@, i, fault)))
    } else {
        None
    }
}

fn parse_models(data: &[u8], at: usize, count: u32) -> (r: Result<
    Vec<MergedModelRecord>,
    (u64, RecordFault),
>)
    requires
        at + 0xA8 * count <= data.len(),
    ensures
        match r {
            Err((i, f)) => model_faults(data@, at as int, count as int) == Some((i as int, f)),
            Ok(v) => {
                &&& model_faults(data@, at as int, count as int) is None
                &&& v@.len() == count
                &&& forall|i: int|
                    0 <= i < count ==> model_stands_at(#[trigger] v@[i], data@, at + 0xA8 * i)
            },
        },
{
    let mut out: Vec<MergedModelRecord> = Vec::new();
    let mut i: u32 = 0;
    while i < count
        invariant
            i <= count,
            at + 0xA8 * count <= data.len(),
            model_faults(data@, at as int, i as int) is None,
            out@.len() == i,
            forall|k: int|
                0 <= k < i ==> model_stands_at(#[trigger] out@[k], data@, at + 0xA8 * k),
        decreases count - i,
    {
        proof {
            model_faults_prefix(data@, at as int, i + 1, count as int);
        }
        match parse_model_record(data, at + 0xA8 * (i as usize)) {
            Ok(record) => {
                out.push(record);
            },
            Err(fault) => {
                return Err((i as u64, fault));
            },
        }
        i += 1;
    }
    Ok(out)
}

fn parse_skeletons(data: &[u8], at: usize, count: u16) -> (r: Result<
    Vec<SkeletonProto>,
    (u64, RecordFault),
>)
    requires
        at + 0x30 * count <= data.len(),
    ensures
        match r {
            Err((i, f)) => skeleton_faults(data@, at as int, count as int) == Some((i as int, f)),
            Ok(v) => {
                &&& skeleton_faults(data@, at as int, count as int) is None
                &&& v@.len() == count
                &&& forall|i: int|
                    0 <= i < count ==> nodes_stand_at(
                        (#[trigger] v@[i]).nodes,
                        data@,
                        at + 0x30 * i,
                    )
            },
        },
{
    let mut out: Vec<SkeletonProto> = Vec::new();
    let mut i: u16 = 0;
    while i < count
        invariant
            i <= count,
            at + 0x30 * count <= data.len(),
            skeleton_faults(data@, at as int, i as int) is None,
            out@.len() == i,
            forall|k: int|
                0 <= k < i ==> nodes_stand_at((#[trigger] out@[k]).nodes, data@, at + 0x30 * k),
        decreases count - i,
    {
        proof {
            skeleton_faults_prefix(data@, at as int, i + 1, count as int);
        }
        match parse_skeleton_proto(data, at + 0x30 * (i as usize)) {
            Ok(skeleton) => {
                out.push(skeleton);
            },
            Err(fault) => {
                return Err((i as u64, fault));
            },
        }
        i += 1;
    }
    Ok(out)
}

/// Whether these are the models and skeletons of a file.
pub open spec fn contents_stand(m: MergedModels, b: Seq<u8>) -> bool {
    &&& m.model_bone_count == bytes::u16_at(b, 6)
    &&& m.models@.len() == bytes::u32_at(b, 0)
    &&& forall|i: int|
        0 <= i < m.models@.len() ==> model_stands_at(
            #[trigger] m.models@[i],
            b,
            pointer_at(b, 0, 0x08) + 0xA8 * i,
        )
    &&& m.skeletons@.len() == bytes::u16_at(b, 4)
    &&& forall|i: int|
        0 <= i < m.skeletons@.len() ==> nodes_stand_at(
            (#[trigger] m.skeletons@[i]).nodes,
            b,
            pointer_at(b, 0, 0x10) + 0x30 * i,
        )
}

/// Reads a model file.
pub fn parse_merged_models(file_data: &[u8]) -> (r: Result<MergedModels, MergedModelsError>)
    ensures
        match r {
            Err(e) => merged_models_error(file_data@) == Some(e@),
            Ok(m) => {
                &&& merged_models_error(file_data@) is None
                &&& contents_stand(m, file_data@)
            },
        },
{
    let have: u64 = file_data.len() as u64;
    if have < HEADER_SIZE {
        return Err(MergedModelsError::DataTooShort { offset: 0, need: HEADER_SIZE, have });
    }
    let models_count: u32 = bytes::get_u32(file_data, 0);
    let skeletons_count: u16 = bytes::get_u16(file_data, 4);
    let models_at: u64 = read_pointer(file_data, 0, 0x08);
    let skeletons_at: u64 = read_pointer(file_data, 0, 0x10);
    if !bytes::fits(file_data, models_at, models_count, MODEL_RECORD_SIZE) {
        return Err(
            MergedModelsError::DataTooShort {
                offset: models_at,
                need: models_count as u64 * MODEL_RECORD_SIZE as u64,
                have,
            },
        );
    }
    let models = match parse_models(file_data, models_at as usize, models_count) {
        Ok(models) => models,
        Err((index, fault)) => {
            return Err(refuse_record("model[", index, fault));
        },
    };
    if !bytes::fits(file_data, skeletons_at, skeletons_count as u32, SKELETON_SIZE) {
        return Err(
            MergedModelsError::DataTooShort {
                offset: skeletons_at,
                need: skeletons_count as u64 * SKELETON_SIZE as u64,
                have,
            },
        );
    }
    let skeletons = match parse_skeletons(file_data, skeletons_at as usize, skeletons_count) {
        Ok(skeletons) => skeletons,
        Err((index, fault)) => {
            return Err(refuse_record("skeleton[", index, fault));
        },
    };
    Ok(MergedModels { models, skeletons, model_bone_count: bytes::get_u16(file_data, 6) })
}

} // verus!
