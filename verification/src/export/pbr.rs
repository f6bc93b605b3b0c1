//! Textures of a material besides its colour, and the choice among loaded pictures.
use vstd::prelude::*;

use crate::export::pixels;
use crate::export::texture;
use crate::models::assets_bin;
use crate::models::assets_bin::PrototypeDatabase;
use crate::models::material;
use crate::models::material::PropertyValue;
use crate::models::material::TiledLandInputs;

verus! {

/// The textures of a material by purpose.
#[derive(Debug, Clone, Copy, PartialEq, Eq, Structural)]
pub struct PbrTextures {
    pub normal: Option<u64>,
    pub metallic_gloss: Option<u64>,
    pub occlusion: Option<u64>,
}

/// The texture in a property of the material with the given id.
pub open spec fn texture_of(db: PrototypeDatabase, mfm_path_id: u64, name: Seq<char>) -> Option<
    u64,
> {
    match db.material_record(mfm_path_id) {
        Some(i) => match (db.materials@[i]->0).property(name) {
            Some(PropertyValue::Texture(h)) => Some(h),
            _ => None,
        },
        None => None,
    }
}

impl PbrTextures {
    /// Whether these are the textures of a material.
    pub open spec fn are_of(&self, db: PrototypeDatabase, mfm_path_id: u64) -> bool {
        &&& self.normal == texture_of(db, mfm_path_id, "normalMap"@)
        &&& self.metallic_gloss == texture_of(db, mfm_path_id, "metallicGlossMap"@)
        &&& self.occlusion == texture_of(db, mfm_path_id, "ambientOcclusionMap"@)
    }
}

/// Finds the textures of a material. A material that is not found has none.
pub fn pbr_textures(db: &PrototypeDatabase, mfm_path_id: u64) -> (r: PbrTextures)
    ensures
        r.are_of(*db, mfm_path_id),
{
    match assets_bin::parse_mfm_from_db(db, mfm_path_id) {
        Some(mat) => PbrTextures {
            normal: mat.get_texture_hash("normalMap"),
            metallic_gloss: mat.get_texture_hash("metallicGlossMap"),
            occlusion: mat.get_texture_hash("ambientOcclusionMap"),
        },
        None => PbrTextures { normal: None, metallic_gloss: None, occlusion: None },
    }
}

/// The textures of a material as PNG files.
#[derive(Debug)]
pub struct PbrChannels {
    pub normal: Option<Vec<u8>>,
    pub metallic_roughness: Option<Vec<u8>>,
    pub occlusion: Option<Vec<u8>>,
}

impl Default for PbrChannels {
    /// No textures.
    fn default() -> (r: PbrChannels)
        ensures
            r.normal is None && r.metallic_roughness is None && r.occlusion is None,
    {
        PbrChannels { normal: None, metallic_roughness: None, occlusion: None }
    }
}

pub open spec fn opt_bytes(b: Option<Vec<u8>>) -> Option<Seq<u8>> {
    match b {
        Some(v) => Some(v@),
        None => None,
    }
}

/// A DDS file as PNG, if there is one and it can be converted.
pub open spec fn picture_of(dds: Option<Seq<u8>>) -> Option<Seq<u8>> {
    match dds {
        Some(b) => match texture::png_of_dds(b) {
            Ok(png) => Some(png),
            Err(_) => None,
        },
        None => None,
    }
}

/// A DDS file as PNG with its pixels replaced.
pub open spec fn repacked_picture(dds: Option<Seq<u8>>, repack: spec_fn(Seq<u8>) -> Seq<u8>) -> Option<
    Seq<u8>,
> {
    match picture_of(dds) {
        Some(png) => match texture::repacked_png(png, repack) {
            Ok(packed) => Some(packed),
            Err(_) => None,
        },
        None => None,
    }
}

/// Whether a PNG file holds the replaced pixels of a DDS file. The steps in between lose
/// nothing, unless the image is too large for them.
pub open spec fn is_repacked(
    dds: Seq<u8>,
    repack: spec_fn(Seq<u8>) -> Seq<u8>,
    png: Option<Seq<u8>>,
) -> bool {
    match texture::decoded_dds(dds) {
        Ok((w, h, p)) => p.len() <= 0x800_0000 && texture::png_file(w, h, p) is Ok ==> png
            == match texture::png_file(w, h, repack(p)) {
            Ok(file) => Some(file),
            Err(_) => None,
        },
        Err(_) => png is None,
    }
}

/// Converts a DDS file to PNG, if there is one and it can be converted.
pub fn picture(dds: &Option<Vec<u8>>) -> (r: Option<Vec<u8>>)
    ensures
        opt_bytes(r) == picture_of(opt_bytes(*dds)),
        dds matches Some(b) ==> (r matches Some(png) ==> (texture::decoded_dds(b@) matches Ok(
            (w, h, p),
        ) ==> texture::reads_back(w, h, p, png@))),
{
    match dds {
        Some(b) => match texture::dds_to_png(b.as_slice()) {
            Ok(png) => Some(png),
            Err(_) => None,
        },
        None => None,
    }
}

/// Converts the loaded textures of a material: normals get their Z component, metallic
/// and gloss become roughness and metallic, occlusion stays as it is. What is missing or
/// cannot be converted is left out.
pub fn pbr_channels(
    normal: &Option<Vec<u8>>,
    metallic_gloss: &Option<Vec<u8>>,
    occlusion: &Option<Vec<u8>>,
) -> (r: PbrChannels)
    ensures
        opt_bytes(r.normal) == repacked_picture(
            opt_bytes(*normal),
            |p: Seq<u8>| pixels::with_reconstructed_z(p),
        ),
        opt_bytes(r.metallic_roughness) == repacked_picture(
            opt_bytes(*metallic_gloss),
            |p: Seq<u8>| pixels::metallic_roughness(p),
        ),
        opt_bytes(r.occlusion) == picture_of(opt_bytes(*occlusion)),
        normal matches Some(b) ==> is_repacked(
            b@,
            |p: Seq<u8>| pixels::with_reconstructed_z(p),
            opt_bytes(r.normal),
        ),
        metallic_gloss matches Some(b) ==> is_repacked(
            b@,
            |p: Seq<u8>| pixels::metallic_roughness(p),
            opt_bytes(r.metallic_roughness),
        ),
{
    let normal_png = match picture(normal) {
        Some(png) => match texture::replace_normal_b_with_reconstructed_z_png(png.as_slice()) {
            Ok(packed) => Some(packed),
            Err(_) => None,
        },
        None => None,
    };
    let mr_png = match picture(metallic_gloss) {
        Some(png) => match texture::repack_wg_mg_to_gltf_mr(png.as_slice()) {
            Ok(packed) => Some(packed),
            Err(_) => None,
        },
        None => None,
    };
    PbrChannels { normal: normal_png, metallic_roughness: mr_png, occlusion: picture(occlusion) }
}

/// What baking the terrain material with the given id needs. Id 0 names no material.
pub fn tile_material(db: &PrototypeDatabase, mfm_path_id: u64) -> (r: Option<TiledLandInputs>)
    ensures
        match db.material_record(mfm_path_id) {
            Some(i) => {
                let mat = db.materials@[i]->0;
                r == if mfm_path_id != 0 && material::composes_tiles(mat) {
                    Some(material::land_inputs(mat))
                } else {
                    None
                }
            },
            None => r is None,
        },
{
    if mfm_path_id == 0 {
        return None;
    }
    match assets_bin::parse_mfm_from_db(db, mfm_path_id) {
        Some(mat) => material::tiledland_inputs(mat),
        None => None,
    }
}

// ---- Camouflage pictures ----------------------------------------------------

/// The picture of one camouflage texture: recoloured if the camouflage is tiled, as it
/// is otherwise. A tiled camouflage without colours has none.
pub open spec fn camo_picture(dds: Option<Seq<u8>>, tiled: bool, colors: Option<Seq<Seq<u8>>>) -> Option<
    Seq<u8>,
> {
    match dds {
        Some(b) => if tiled {
            match colors {
                Some(c) => match texture::camo_png(b, c) {
                    Ok(png) => Some(png),
                    Err(_) => None,
                },
                None => None,
            }
        } else {
            picture_of(Some(b))
        },
        None => None,
    }
}

/// The first picture among the textures of a camouflage, from `i` on.
pub open spec fn first_picture_from(
    files: Seq<Option<Vec<u8>>>,
    tiled: bool,
    colors: Option<Seq<Seq<u8>>>,
    i: int,
) -> Option<Seq<u8>>
    decreases files.len() - i,
{
    if i < 0 || i >= files.len() {
        None
    } else {
        match camo_picture(opt_bytes(files[i]), tiled, colors) {
            Some(png) => Some(png),
            None => first_picture_from(files, tiled, colors, i + 1),
        }
    }
}

pub open spec fn opt_colors(colors: Option<[[u8; 4]; 4]>) -> Option<Seq<Seq<u8>>> {
    match colors {
        Some(c) => Some(pixels::color_views(c@)),
        None => None,
    }
}

/// Makes the picture of a camouflage from the first of its textures that is there and
/// can be converted.
pub fn first_camo_picture(
    files: &Vec<Option<Vec<u8>>>,
    tiled: bool,
    colors: &Option<[[u8; 4]; 4]>,
) -> (r: Option<Vec<u8>>)
    ensures
        opt_bytes(r) == first_picture_from(files@, tiled, opt_colors(*colors), 0),
{
    let ghost c = opt_colors(*colors);
    let mut i: usize = 0;
    while i < files.len()
        invariant
            i <= files.len(),
            c == opt_colors(*colors),
            first_picture_from(files@, tiled, c, i as int) == first_picture_from(
                files@,
                tiled,
                c,
                0,
            ),
        decreases files.len() - i,
    {
        if let Some(b) = &files[i] {
            if tiled {
                if let Some(scheme) = colors {
                    if let Ok(png) = texture::bake_tiled_camo_png(b.as_slice(), scheme) {
                        return Some(png);
                    }
                }
            } else {
                if let Ok(png) = texture::dds_to_png(b.as_slice()) {
                    return Some(png);
                }
            }
        }
        i += 1;
    }
    None
}

/// Each texture of a material is the one in the property for its purpose.
pub proof fn textures_serve_their_purpose(
    t: PbrTextures,
    db: PrototypeDatabase,
    id: u64,
    i: int,
    h: u64,
)
    requires
        t.are_of(db, id),
        db.material_record(id) == Some(i),
    ensures
        (db.materials@[i]->0).property("normalMap"@) == Some(PropertyValue::Texture(h)) ==> t.normal
            == Some(h),
        (db.materials@[i]->0).property("metallicGlossMap"@) == Some(PropertyValue::Texture(h))
            ==> t.metallic_gloss == Some(h),
        (db.materials@[i]->0).property("ambientOcclusionMap"@) == Some(PropertyValue::Texture(h))
            ==> t.occlusion == Some(h),
        (db.materials@[i]->0).property("normalMap"@) is None ==> t.normal is None,
        (db.materials@[i]->0).property("metallicGlossMap"@) is None ==> t.metallic_gloss is None,
        (db.materials@[i]->0).property("ambientOcclusionMap"@) is None ==> t.occlusion is None,
{
}

/// A camouflage shows the first of its textures that has a picture.
pub proof fn first_pictures_are_shown(
    files: Seq<Option<Vec<u8>>>,
    tiled: bool,
    colors: Option<Seq<Seq<u8>>>,
    i: int,
    k: int,
)
    requires
        0 <= i <= k < files.len(),
        camo_picture(opt_bytes(files[k]), tiled, colors) is Some,
        forall|j: int|
            i <= j < k ==> camo_picture(opt_bytes(#[trigger] files[j]), tiled, colors) is None,
    ensures
        first_picture_from(files, tiled, colors, i) == camo_picture(
            opt_bytes(files[k]),
            tiled,
            colors,
        ),
    decreases k - i,
{
    if i < k {
        first_pictures_are_shown(files, tiled, colors, i + 1, k);
    }
}

} // verus!
