//! Material prototypes: named and typed shader parameters.
use vstd::prelude::*;
use vstd::arithmetic::power2::*;

use crate::arith;
use crate::exact;
use crate::text;

verus! {

/// The value of a material property. Numbers that are not integers are
/// single-precision bit patterns.
#[derive(Debug, Clone, Copy)]
pub enum PropertyValue {
    Bool(bool),
    Int(i32),
    Float(u32),
    /// Path id of a texture.
    Texture(u64),
    Vec2([u32; 2]),
    Vec3([u32; 3]),
    Vec4([u32; 4]),
}

/// The declared type of a property.
#[derive(Debug, Clone, Copy, PartialEq, Eq, Structural)]
pub enum PropertyType {
    Texture,
    FloatA,
    FloatB,
    Other,
}

/// One property of a material.
#[derive(Debug)]
pub struct MaterialProperty {
    pub property_type: PropertyType,
    /// The property's name, where it is known.
    pub name: Option<String>,
    pub name_hash: u32,
    pub value: Option<PropertyValue>,
}

/// A material.
#[derive(Debug)]
pub struct MaterialPrototype {
    pub shader_id: u32,
    pub material_hash: u64,
    pub properties: Vec<MaterialProperty>,
}

/// The value of the first property of the given name, from property `i` on.
pub open spec fn property_from(
    p: Seq<MaterialProperty>,
    name: Seq<char>,
    i: int,
) -> Option<PropertyValue>
    decreases p.len() - i,
{
    if i >= p.len() || i < 0 {
        None
    } else if text::opt_text(p[i].name) == Some(name) {
        p[i].value
    } else {
        property_from(p, name, i + 1)
    }
}

impl MaterialPrototype {
    /// The value of the first property of the given name.
    pub open spec fn property(&self, name: Seq<char>) -> Option<PropertyValue> {
        property_from(self.properties@, name, 0)
    }

    fn find(&self, name: &str) -> (r: Option<PropertyValue>)
        ensures
            r == self.property(name@),
    {
        let mut i: usize = 0;
        while i < self.properties.len()
            invariant
                i <= self.properties.len(),
                property_from(self.properties@, name@, i as int) == self.property(name@),
            decreases self.properties.len() - i,
        {
            if let Some(n) = &self.properties[i].name {
                if text::same(n.as_str(), name) {
                    return self.properties[i].value;
                }
            }
            i += 1;
        }
        None
    }

    /// The texture that a property names.
    pub fn get_texture_hash(&self, name: &str) -> (r: Option<u64>)
        ensures
            r == match self.property(name@) {
                Some(PropertyValue::Texture(h)) => Some(h),
                _ => None,
            },
    {
        match self.find(name) {
            Some(PropertyValue::Texture(h)) => Some(h),
            _ => None,
        }
    }

    /// The four numbers that a property holds.
    pub fn get_vec4(&self, name: &str) -> (r: Option<[u32; 4]>)
        ensures
            r == match self.property(name@) {
                Some(PropertyValue::Vec4(v)) => Some(v),
                _ => None,
            },
    {
        match self.find(name) {
            Some(PropertyValue::Vec4(v)) => Some(v),
            _ => None,
        }
    }

    /// The number that a property holds.
    pub fn get_float(&self, name: &str) -> (r: Option<u32>)
        ensures
            r == match self.property(name@) {
                Some(PropertyValue::Float(v)) => Some(v),
                _ => None,
            },
    {
        match self.find(name) {
            Some(PropertyValue::Float(v)) => Some(v),
            _ => None,
        }
    }
}

/// Whether a material composes terrain from tiles: it has a tile atlas, a blend map
/// and tile indices.
pub open spec fn composes_tiles(mat: MaterialPrototype) -> bool {
    &&& mat.property("AHArray"@) matches Some(PropertyValue::Texture(_))
    &&& mat.property("blendMap"@) matches Some(PropertyValue::Texture(_))
    &&& mat.property("g_tilesIndex"@) matches Some(PropertyValue::Vec4(_))
}

/// Whether a material composes terrain from tiles.
pub fn is_tiledland_material(mat: &MaterialPrototype) -> (r: bool)
    ensures
        r == composes_tiles(*mat),
{
    mat.get_texture_hash("AHArray").is_some() && mat.get_texture_hash("blendMap").is_some()
        && mat.get_vec4("g_tilesIndex").is_some()
}

/// What baking a terrain material needs to know of it. A missing tile scale is 16, a
/// missing sheen 0.
#[derive(Debug, Clone, Copy)]
pub struct TiledLandInputs {
    pub atlas_hash: u64,
    pub blend_hash: u64,
    pub tiles_index: [u32; 4],
    pub tiles_scale: u32,
    pub sheen_tint: Option<[u32; 4]>,
    pub sheen_amount: u32,
}

/// Bit pattern of 16.
pub const SIXTEEN_BITS: u32 = 0x4180_0000;

/// The number in a property, or another one.
pub open spec fn float_or(value: Option<PropertyValue>, other: u32) -> u32 {
    match value {
        Some(PropertyValue::Float(v)) => v,
        _ => other,
    }
}

/// The texture in a property, or 0.
pub open spec fn texture_or_none(value: Option<PropertyValue>) -> u64 {
    match value {
        Some(PropertyValue::Texture(h)) => h,
        _ => 0,
    }
}

/// The four numbers in a property.
pub open spec fn vec4_of(value: Option<PropertyValue>) -> Option<[u32; 4]> {
    match value {
        Some(PropertyValue::Vec4(v)) => Some(v),
        _ => None,
    }
}

/// What baking a material that composes tiles needs to know of it.
pub open spec fn land_inputs(mat: MaterialPrototype) -> TiledLandInputs {
    TiledLandInputs {
        atlas_hash: texture_or_none(mat.property("AHArray"@)),
        blend_hash: texture_or_none(mat.property("blendMap"@)),
        tiles_index: vec4_of(mat.property("g_tilesIndex"@))->0,
        tiles_scale: float_or(mat.property("g_tilesScale"@), SIXTEEN_BITS),
        sheen_tint: vec4_of(mat.property("addSheenTintColor"@)),
        sheen_amount: float_or(mat.property("sheen"@), 0),
    }
}

/// Gathers what baking a terrain material needs. Only materials that compose tiles
/// have all of it.
pub fn tiledland_inputs(mat: &MaterialPrototype) -> (r: Option<TiledLandInputs>)
    ensures
        r == if composes_tiles(*mat) {
            Some(land_inputs(*mat))
        } else {
            None
        },
{
    let atlas_hash: u64 = match mat.get_texture_hash("AHArray") {
        Some(h) => h,
        None => {
            return None;
        },
    };
    let blend_hash: u64 = match mat.get_texture_hash("blendMap") {
        Some(h) => h,
        None => {
            return None;
        },
    };
    let tiles_index: [u32; 4] = match mat.get_vec4("g_tilesIndex") {
        Some(v) => v,
        None => {
            return None;
        },
    };
    Some(
        TiledLandInputs {
            atlas_hash,
            blend_hash,
            tiles_index,
            tiles_scale: match mat.get_float("g_tilesScale") {
                Some(v) => v,
                None => SIXTEEN_BITS,
            },
            sheen_tint: mat.get_vec4("addSheenTintColor"),
            sheen_amount: match mat.get_float("sheen") {
                Some(v) => v,
                None => 0,
            },
        },
    )
}

/// Of several properties with one name the first one counts.
pub proof fn first_properties_count(p: Seq<MaterialProperty>, name: Seq<char>, i: int, k: int)
    requires
        0 <= i <= k < p.len(),
        text::opt_text(p[k].name) == Some(name),
        forall|j: int| i <= j < k ==> text::opt_text((#[trigger] p[j]).name) != Some(name),
    ensures
        property_from(p, name, i) == p[k].value,
    decreases k - i,
{
    if i < k {
        first_properties_count(p, name, i + 1, k);
    }
}

/// What a terrain material shows is what its properties say; a material that says nothing
/// of the repeats has sixteen, and one that says nothing of a sheen has none.
pub proof fn terrain_materials_say_what_they_show(
    mat: MaterialPrototype,
    atlas: u64,
    blend: u64,
    index: [u32; 4],
    scale: u32,
    tint: [u32; 4],
    sheen: u32,
)
    requires
        mat.property("AHArray"@) == Some(PropertyValue::Texture(atlas)),
        mat.property("blendMap"@) == Some(PropertyValue::Texture(blend)),
        mat.property("g_tilesIndex"@) == Some(PropertyValue::Vec4(index)),
    ensures
        composes_tiles(mat),
        land_inputs(mat).atlas_hash == atlas,
        land_inputs(mat).blend_hash == blend,
        land_inputs(mat).tiles_index == index,
        mat.property("g_tilesScale"@) == Some(PropertyValue::Float(scale)) ==> land_inputs(
            mat,
        ).tiles_scale == scale,
        mat.property("g_tilesScale"@) is None ==> exact::stands_for(
            land_inputs(mat).tiles_scale,
            16,
            0,
        ),
        mat.property("addSheenTintColor"@) == Some(PropertyValue::Vec4(tint)) ==> land_inputs(
            mat,
        ).sheen_tint == Some(tint),
        mat.property("addSheenTintColor"@) is None ==> land_inputs(mat).sheen_tint is None,
        mat.property("sheen"@) == Some(PropertyValue::Float(sheen)) ==> land_inputs(
            mat,
        ).sheen_amount == sheen,
        mat.property("sheen"@) is None ==> land_inputs(mat).sheen_amount == 0,
{
    lemma2_to64();
    arith::sizes_by_parts(SIXTEEN_BITS);
    lemma_pow2_adds(19, 130);
    assert(0x80_0000 * pow2(130) == 16 * (0x8_0000 * pow2(130)));
}

} // verus!
