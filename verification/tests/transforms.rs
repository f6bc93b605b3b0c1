use wowsunpack::export::barrels::build_barrel_pitch;
use wowsunpack::export::colors::linear_to_srgb;
use wowsunpack::export::colors::to_color_bytes;
use wowsunpack::export::colors::vertex_colors;
use wowsunpack::export::mounts::ensure_proper_rotation;
use wowsunpack::export::mounts::mat4_rotation_inverse;
use wowsunpack::export::mounts::translation_only;
use wowsunpack::export::mounts::IDENTITY_4X4;
use wowsunpack::export::pixels::RgbaPixels;
use wowsunpack::export::tangents;
use wowsunpack::export::tangents::TangentSums;
use wowsunpack::export::tiledland;
use wowsunpack::models::assets_bin::PrototypeDatabase;
use wowsunpack::models::assets_bin::StringEntry;
use wowsunpack::models::material::TiledLandInputs;
use wowsunpack::models::transform;
use wowsunpack::models::visual::BoundingBox;
use wowsunpack::models::visual::Matrix4x4;
use wowsunpack::models::visual::RenderSet;
use wowsunpack::models::visual::VisualNodes;
use wowsunpack::models::visual::VisualPrototype;

fn matrix(m: [f32; 16]) -> Matrix4x4 {
    Matrix4x4(m.map(f32::to_bits))
}

fn floats(m: &Matrix4x4) -> [f32; 16] {
    m.0.map(f32::from_bits)
}

const A: [f32; 16] =
    [1.5, 0.2, -3.0, 0.0, 0.1, 2.0, 0.7, 0.0, -0.4, 0.9, 1.1, 0.0, 10.0, -20.5, 30.25, 1.0];
const B: [f32; 16] =
    [0.3, -1.2, 0.5, 0.0, 1.7, 0.6, -0.8, 0.0, 0.25, 2.5, -1.5, 0.0, -7.0, 8.0, 9.125, 1.0];

fn product(a: &[f32; 16], b: &[f32; 16]) -> [f32; 16] {
    let mut out = [0.0f32; 16];
    for col in 0..4 {
        for row in 0..4 {
            out[col * 4 + row] = (0..4).map(|k| a[k * 4 + row] * b[col * 4 + k]).sum();
        }
    }
    out
}

#[test]
fn transforms_multiply_column_by_column() {
    let r = transform::mat4_mul_col_major(&matrix(A), &matrix(B));
    assert_eq!(floats(&r), product(&A, &B));
    let identity = Matrix4x4(IDENTITY_4X4);
    assert_eq!(floats(&transform::mat4_mul_col_major(&identity, &matrix(A))), A);
}

#[test]
fn determinant_tells_mirrors() {
    let m = A;
    let expected = m[0] * (m[5] * m[10] - m[6] * m[9]) - m[4] * (m[1] * m[10] - m[2] * m[9])
        + m[8] * (m[1] * m[6] - m[2] * m[5]);
    assert_eq!(f32::from_bits(transform::mat3_determinant(&matrix(A))), expected);
    let mut mirror = IDENTITY_4X4.map(f32::from_bits);
    mirror[10] = -1.0;
    assert!(transform::has_mirror(&matrix(mirror)));
    assert!(!transform::has_no_mirror(&matrix(mirror)));
    assert!(!transform::has_mirror(&Matrix4x4(IDENTITY_4X4)));
    mirror[10] = f32::NAN;
    assert!(!transform::has_mirror(&matrix(mirror)));
    assert!(!transform::has_no_mirror(&matrix(mirror)));
}

#[test]
fn mirror_becomes_half_a_turn() {
    let mut mirror = IDENTITY_4X4.map(f32::from_bits);
    mirror[10] = -1.0;
    mirror[12] = 7.0;
    let r = floats(&ensure_proper_rotation(matrix(mirror)));
    assert_eq!((r[0], r[5], r[10], r[12]), (-1.0, 1.0, -1.0, 7.0));
    // Mirrors give up their first column's direction; other matrices stay.
    assert!(transform::has_mirror(&matrix(A)));
    let proper = floats(&ensure_proper_rotation(matrix(A)));
    assert_eq!(proper[..3], [-1.5, -0.2, 3.0]);
    assert_eq!(proper[4..], A[4..]);
    assert!(transform::has_no_mirror(&matrix(proper)));
    assert_eq!(floats(&ensure_proper_rotation(matrix(proper))), proper);
}

#[test]
fn rotation_is_inverted_twice() {
    let once = mat4_rotation_inverse(&matrix(A));
    assert_eq!(floats(&once)[1], A[4]);
    assert_eq!(floats(&once)[12..], [0.0, 0.0, 0.0, 1.0]);
    let twice = floats(&mat4_rotation_inverse(&once));
    assert_eq!(twice[..3], A[..3]);
    assert_eq!(twice[8..11], A[8..11]);
    let t = floats(&translation_only(&matrix(A)));
    assert_eq!(t[12..], A[12..]);
    assert_eq!(t[0], 1.0);
    assert_eq!(t[1], 0.0);
}

#[test]
fn points_are_transformed() {
    let p = [1.0f32, 2.0, 3.0];
    let r = transform::transform_point(&matrix(A), p.map(f32::to_bits)).map(f32::from_bits);
    for row in 0..3 {
        assert_eq!(r[row], A[row] * p[0] + A[4 + row] * p[1] + A[8 + row] * p[2] + A[12 + row]);
    }
}

fn turret() -> (VisualPrototype, PrototypeDatabase) {
    let names = ["Root", "Rotate_Y", "Rotate_X", "Barrel"];
    let db = PrototypeDatabase {
        paths: vec![],
        strings: (0..4)
            .map(|i| StringEntry { id: 10 + i, text: names[i as usize].to_string() })
            .collect(),
        resources: vec![],
        materials: vec![],
        model_visuals: vec![],
        visual_count: 0,
    };
    let visual = VisualPrototype {
        nodes: VisualNodes {
            name_map_name_ids: vec![10, 11, 12, 13],
            name_map_node_ids: vec![0, 1, 2, 3],
            name_ids: vec![10, 11, 12, 13],
            matrices: vec![Matrix4x4(IDENTITY_4X4); 4],
            parent_ids: vec![0xFFFF, 0, 1, 2],
        },
        merged_geometry_path_id: 0,
        underwater_model: false,
        abovewater_model: false,
        bounding_box: BoundingBox { min: [0; 3], max: [0; 3] },
        render_sets: vec![RenderSet {
            name_id: 0,
            material_name_id: 0,
            vertices_mapping_id: 0,
            indices_mapping_id: 0,
            material_mfm_path_id: 0,
            skinned: true,
            node_name_ids: vec![11, 12, 13, 99],
        }],
        lods: vec![],
    };
    (visual, db)
}

#[test]
fn barrels_pitch_about_their_axis() {
    let (visual, db) = turret();
    let mut pose = IDENTITY_4X4.map(f32::from_bits);
    pose[13] = 2.0;
    pose[14] = 3.0;
    let (sin, cos) = (-0.5f32, 0.8660254f32);
    let pitch =
        build_barrel_pitch(&visual, &db, &Some(matrix(pose)), sin.to_bits(), cos.to_bits()).unwrap();
    assert_eq!(pitch.barrel_bone_indices, [1, 2]);
    let m = pitch.pitch_matrix.map(f32::from_bits);
    assert_eq!(m[5], cos);
    assert_eq!(m[6], -sin);
    assert_eq!(m[9], sin);
    assert_eq!(m[13], 2.0 - cos * 2.0 + sin * 3.0);
    assert_eq!(m[14], -(3.0 + sin * 2.0 - cos * 3.0));
    assert!(build_barrel_pitch(&visual, &db, &None, 0, 0).is_none());
    let empty = PrototypeDatabase { strings: vec![], ..db };
    assert!(build_barrel_pitch(&visual, &empty, &Some(matrix(pose)), 0, 0).is_none());
}

#[test]
fn meshes_without_tangent_space_are_told() {
    assert!(!tangents::has_tangent_space(0, 0, 0, &[]));
    assert!(!tangents::has_tangent_space(0, 0, 0, &[0, 1, 2]));
    assert!(!tangents::has_tangent_space(3, 2, 3, &[0, 1, 2]));
    assert!(!tangents::has_tangent_space(3, 3, 3, &[0, 1]));
    assert!(tangents::has_tangent_space(3, 3, 3, &[0, 1, 2]));
    assert_eq!(tangents::num_faces(&[0, 1, 2, 3, 4, 5]), 2);
    assert_eq!(tangents::vert_index(&[0, 1, 2, 7, 8, 9], 1, 2), 9);
}

#[test]
fn tangents_are_averaged() {
    let bits = |t: [f32; 4]| t.map(f32::to_bits);
    let mut sums = TangentSums::new(3);
    sums.add_corner(0, bits([1.0, 0.0, 0.0, 1.0]));
    sums.add_corner(0, bits([0.0, 1.0, 0.0, -1.0]));
    sums.add_corner(1, bits([0.5, 0.0, 0.0, -1.0]));
    sums.add_corner(1, bits([-0.5, 0.0, 0.0, -1.0]));
    let r: Vec<[f32; 4]> = sums.averages().iter().map(|t| t.map(f32::from_bits)).collect();
    let len = (0.5f32 * 0.5 + 0.5 * 0.5).sqrt();
    assert_eq!(r[0], [0.5 * (1.0 / len), 0.5 * (1.0 / len), 0.0, 1.0]);
    assert_eq!(r[1], [1.0, 0.0, 0.0, -1.0]);
    assert_eq!(r[2], [0.0, 0.0, 0.0, 1.0]);
}

#[test]
fn colours_become_srgb_bytes() {
    let srgb = |c: f32| {
        let c = c.clamp(0.0, 1.0);
        if c <= 0.0031308 { c * 12.92 } else { 1.055 * c.powf(1.0 / 2.4) - 0.055 }
    };
    for c in [-1.0f32, 0.0, 0.001, 0.0031308, 0.0031309, 0.2, 0.5, 0.99, 1.0, 3.0, f32::NAN] {
        let power = c.clamp(0.0, 1.0).powf(1.0 / 2.4);
        let held = c.clamp(0.0, 1.0);
        let r = f32::from_bits(linear_to_srgb(held.to_bits(), power.to_bits()));
        assert!(r == srgb(c) || (r.is_nan() && c.is_nan()));
        let bytes = to_color_bytes(&[c.to_bits(); 4], &[power.to_bits(); 3]);
        assert_eq!(bytes[0], (srgb(c) * 255.0) as u8);
        assert_eq!(bytes[3], (held * 255.0) as u8);
    }
}

#[test]
fn vertices_take_the_colour_of_their_texture() {
    let image = RgbaPixels { width: 2, height: 1, pixels: vec![10, 20, 30, 40, 50, 60, 70, 80] };
    let uvs: Vec<[u32; 2]> = [[0.25f32, 0.0], [0.75, 0.5], [-0.25, 9.5], [2.0, 0.0]]
        .iter()
        .map(|uv| uv.map(f32::to_bits))
        .collect();
    let r: Vec<[f32; 4]> =
        vertex_colors(&image, &uvs).iter().map(|c| c.map(f32::from_bits)).collect();
    assert_eq!(r[0], [10.0 / 255.0, 20.0 / 255.0, 30.0 / 255.0, 1.0]);
    assert_eq!(r[1][0], 50.0 / 255.0);
    assert_eq!(r[2][0], 50.0 / 255.0);
    assert_eq!(r[3][0], 10.0 / 255.0);
}

#[test]
fn tiles_are_blended_by_weight() {
    let tile = |v: u8| Some(RgbaPixels { width: 1, height: 1, pixels: vec![v, v / 2, 0, 9] });
    let tiles = vec![tile(100), tile(200), None, tile(50)];
    let inputs = TiledLandInputs {
        atlas_hash: 1,
        blend_hash: 2,
        tiles_index: [0; 4],
        tiles_scale: 16.0f32.to_bits(),
        sheen_tint: None,
        sheen_amount: 0.5f32.to_bits(),
    };
    let blend = RgbaPixels {
        width: 2,
        height: 2,
        pixels: vec![255, 0, 0, 0, 0, 0, 0, 0, 128, 128, 0, 0, 0, 0, 255, 0],
    };
    let r = tiledland::bake_tiles(&blend, &tiles, &inputs);
    assert_eq!((r.width, r.height), (2, 2));
    assert_eq!(r.pixels[..4], [100, 50, 0, 255]);
    // Without weight, layers have equal shares: (100 + 200 + 50) / 4.
    assert_eq!(r.pixels[4..8], [87, 43, 0, 255]);
    assert_eq!(r.pixels[8..12], [150, 75, 0, 255]);
    assert_eq!(r.pixels[12..16], [0, 0, 0, 255]);
    let tinted = TiledLandInputs { sheen_tint: Some([1.0f32.to_bits(), 0, 0, 0]), ..inputs };
    let r = tiledland::bake_tiles(&blend, &tiles, &tinted);
    assert_eq!(r.pixels[..4], [177, 25, 0, 255]);
}
