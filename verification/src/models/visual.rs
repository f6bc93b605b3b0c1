//! Prototype data shared by the model formats.
use vstd::prelude::*;

use crate::bytes;

verus! {

/// A column-major 4x4 matrix of single-precision bit patterns.
#[derive(Debug, Clone, Copy)]
pub struct Matrix4x4(pub [u32; 16]);

impl View for Matrix4x4 {
    type V = Seq<u32>;

    open spec fn view(&self) -> Seq<u32> {
        self.0@
    }
}

/// The matrix stored in `b` from `at` on.
pub open spec fn matrix_at(b: Seq<u8>, at: int) -> Seq<u32> {
    bytes::u32s_at(b, at, 16)
}

/// The matrices stored one after the other from `at` on.
pub open spec fn matrices_at(b: Seq<u8>, at: int, count: int) -> Seq<Seq<u32>> {
    Seq::new(count as nat, |i: int| matrix_at(b, at + 64 * i))
}

pub open spec fn matrix_views(s: Seq<Matrix4x4>) -> Seq<Seq<u32>> {
    Seq::new(s.len(), |i: int| s[i]@)
}

/// Reads a matrix that is known to lie inside the buffer.
pub fn get_matrix(b: &[u8], at: usize) -> (r: Matrix4x4)
    requires
        at + 64 <= b.len(),
    ensures
        r@ == matrix_at(b@, at as int),
{
    let mut m: [u32; 16] = [0u32; 16];
    let mut i: usize = 0;
    while i < 16
        invariant
            i <= 16,
            at + 64 <= b.len(),
            forall|k: int| 0 <= k < i ==> m@[k] == bytes::u32_at(b@, at + 4 * k),
        decreases 16 - i,
    {
        m[i] = bytes::get_u32(b, at + 4 * i);
        i += 1;
    }
    assert(m@ =~= matrix_at(b@, at as int));
    Matrix4x4(m)
}

/// Reads an array of matrices that is known to lie inside the buffer.
pub fn get_matrices(b: &[u8], at: usize, count: usize) -> (r: Vec<Matrix4x4>)
    requires
        at + 64 * count <= b.len(),
    ensures
        matrix_views(r@) == matrices_at(b@, at as int, count as int),
{
    let mut out: Vec<Matrix4x4> = Vec::new();
    let mut i: usize = 0;
    while i < count
        invariant
            i <= count,
            at + 64 * count <= b.len(),
            out@.len() == i,
            forall|k: int| 0 <= k < i ==> (#[trigger] out@[k])@ == matrix_at(b@, at + 64 * k),
        decreases count - i,
    {
        out.push(get_matrix(b, at + 64 * i));
        i += 1;
    }
    assert(matrix_views(out@) =~= matrices_at(b@, at as int, count as int));
    out
}

/// The translation of a matrix.
pub fn matrix_position(transform: &Matrix4x4) -> (r: [u32; 3])
    ensures
        r@ == transform@.subrange(12, 15),
{
    let r: [u32; 3] = [transform.0[12], transform.0[13], transform.0[14]];
    assert(r@ =~= transform@.subrange(12, 15));
    r
}

/// An axis-aligned box.
#[derive(Debug, Clone, Copy)]
pub struct BoundingBox {
    pub min: [u32; 3],
    pub max: [u32; 3],
}

/// The nodes of a skeleton.
#[derive(Debug)]
pub struct VisualNodes {
    pub name_map_name_ids: Vec<u32>,
    pub name_map_node_ids: Vec<u16>,
    pub name_ids: Vec<u32>,
    pub matrices: Vec<Matrix4x4>,
    pub parent_ids: Vec<u16>,
}

/// A piece of geometry with its material.
#[derive(Debug)]
pub struct RenderSet {
    pub name_id: u32,
    pub material_name_id: u32,
    pub vertices_mapping_id: u32,
    pub indices_mapping_id: u32,
    pub material_mfm_path_id: u64,
    pub skinned: bool,
    pub node_name_ids: Vec<u32>,
}

/// A level of detail: the render sets to draw up to some distance.
#[derive(Debug)]
pub struct Lod {
    pub extent: u32,
    pub casts_shadow: bool,
    pub render_set_names: Vec<u32>,
}

/// The visual part of a model.
#[derive(Debug)]
pub struct VisualPrototype {
    pub nodes: VisualNodes,
    pub merged_geometry_path_id: u64,
    pub underwater_model: bool,
    pub abovewater_model: bool,
    pub bounding_box: BoundingBox,
    pub render_sets: Vec<RenderSet>,
    pub lods: Vec<Lod>,
}

/// A colour variation of a model: the tints of one material.
#[derive(Debug)]
pub struct DyeEntry {
    pub matter_id: u32,
    pub replaces_id: u32,
    pub tint_name_ids: Vec<u32>,
    pub tint_material_ids: Vec<u64>,
}

/// The prototype of a model.
#[derive(Debug)]
pub struct ModelPrototype {
    pub visual_resource_id: u64,
    pub misc_type: u8,
    pub skel_ext_res_ids: Vec<u64>,
    pub animations: Vec<u64>,
    pub dyes: Vec<DyeEntry>,
}

} // verus!
