//! Terrain colours: four tile layers of an atlas, blended by the channels of a map.
//!
//! All arithmetic is in single precision (see [`crate::arith`]).
use vstd::prelude::*;
use vstd::arithmetic::div_mod::*;
use vstd::arithmetic::power2::*;

use crate::arith;
use crate::exact;
use crate::export::pbr;
use crate::export::pixels;
use crate::export::pixels::RgbaPixels;
use crate::export::texture;
use crate::models::material::TiledLandInputs;
use crate::single;

verus! {

/// Bit pattern of 255.
pub const BYTE_BITS: u32 = 0x437F_0000;

/// Bit pattern of one quarter.
pub const QUARTER_BITS: u32 = 0x3E80_0000;

/// A byte in single precision.
pub open spec fn byte_form(b: u8) -> u32 {
    arith::integer_form(b as u32)
}

/// The weight of layer `k` at pixel `i` of a blend map, between 0 and 1.
pub open spec fn weight(b: Seq<u8>, i: int, k: int) -> u32 {
    arith::quotient(byte_form(b[4 * i + k]), BYTE_BITS)
}

/// The sum of the weights at a pixel.
pub open spec fn weight_sum(b: Seq<u8>, i: int) -> u32 {
    arith::sum(arith::sum(arith::sum(weight(b, i, 0), weight(b, i, 1)), weight(b, i, 2)), weight(b, i, 3))
}

/// The share of layer `k` at a pixel. Where there is hardly any weight, layers have equal
/// shares.
pub open spec fn share(b: Seq<u8>, i: int, k: int) -> u32 {
    if arith::is_less(single::MILLI_BITS, weight_sum(b, i)) {
        arith::quotient(weight(b, i, k), weight_sum(b, i))
    } else {
        QUARTER_BITS
    }
}

/// What is left of a number without its whole part.
pub open spec fn fraction(x: u32) -> u32 {
    arith::sum(x, single::negated(arith::cut(x)))
}

/// The column or row of a tile that a column or row of the image shows: the tile is
/// repeated `scale` times over the image.
pub open spec fn texel(at: u32, size: u32, scale: u32, tile: u32) -> int {
    let place = arith::quotient(arith::integer_form(at), arith::integer_form(size));
    let n = single::whole(
        arith::product(fraction(arith::product(place, scale)), arith::integer_form(tile)),
    );
    if n < tile - 1 {
        n
    } else {
        tile - 1
    }
}

/// Channel `c` of a tile where pixel (`px`, `py`) of an image of the given size shows it.
pub open spec fn sample(
    tile: pixels::ImageView,
    px: u32,
    py: u32,
    w: u32,
    h: u32,
    scale: u32,
    c: int,
) -> u8 {
    let x = texel(px, w, scale, tile.0);
    let y = texel(py, h, scale, tile.1);
    tile.2[4 * (y * tile.0 + x) + c]
}

/// Channel `c` of a pixel after the first `n` layers. Layers with hardly any share, and
/// those without a tile, add nothing.
pub open spec fn layered(
    b: Seq<u8>,
    w: u32,
    h: u32,
    tiles: Seq<Option<pixels::ImageView>>,
    scale: u32,
    px: u32,
    py: u32,
    c: int,
    n: int,
) -> u32
    decreases n,
{
    if n <= 0 {
        0
    } else {
        let before = layered(b, w, h, tiles, scale, px, py, c, n - 1);
        let part = share(b, py * w + px, n - 1);
        match tiles[n - 1] {
            Some(tile) => if arith::is_less(part, single::MILLI_BITS) {
                before
            } else {
                arith::sum(
                    before,
                    arith::product(byte_form(sample(tile, px, py, w, h, scale, c)), part),
                )
            },
            None => before,
        }
    }
}

/// A channel with the sheen of a material: moved towards the tint by the amount.
pub open spec fn tinted(value: u32, tint: Option<[u32; 4]>, amount: u32, c: int) -> u32 {
    match tint {
        Some(t) => if arith::is_less(0, amount) {
            arith::sum(
                arith::product(value, arith::sum(single::ONE_BITS, single::negated(amount))),
                arith::product(arith::product(t@[c], BYTE_BITS), amount),
            )
        } else {
            value
        },
        None => value,
    }
}

/// A number as a byte: cut, and held between 0 and 255.
pub open spec fn to_byte(value: u32) -> u8 {
    let n = single::whole(value);
    if n > 255 {
        255
    } else {
        n as u8
    }
}

/// The colours of terrain at the resolution of its blend map, opaque.
pub open spec fn baked(
    b: Seq<u8>,
    w: u32,
    h: u32,
    tiles: Seq<Option<pixels::ImageView>>,
    inputs: TiledLandInputs,
) -> Seq<u8> {
    Seq::new(
        (4 * (w * h)) as nat,
        |i: int|
            if i % 4 == 3 {
                255u8
            } else {
                baked_channel(b, w, h, tiles, inputs, i / 4, i % 4)
            },
    )
}

/// Channel `c` of pixel `i` of terrain.
pub open spec fn baked_channel(
    b: Seq<u8>,
    w: u32,
    h: u32,
    tiles: Seq<Option<pixels::ImageView>>,
    inputs: TiledLandInputs,
    i: int,
    c: int,
) -> u8 {
    let px = (i % w as int) as u32;
    let py = (i / w as int) as u32;
    to_byte(
        tinted(
            layered(b, w, h, tiles, inputs.tiles_scale, px, py, c, 4),
            inputs.sheen_tint,
            inputs.sheen_amount,
            c,
        ),
    )
}

fn get_weight(blend: &RgbaPixels, i: usize, k: usize) -> (r: u32)
    requires
        4 * i + k < blend.pixels.len(),
    ensures
        r == weight(blend.pixels@, i as int, k as int),
{
    arith::divide_singles(arith::from_u32(blend.pixels[4 * i + k] as u32), BYTE_BITS)
}

/// Computes the shares of the four layers at a pixel.
fn get_shares(blend: &RgbaPixels, i: usize) -> (r: [u32; 4])
    requires
        4 * i + 3 < blend.pixels.len(),
    ensures
        forall|k: int| 0 <= k < 4 ==> #[trigger] r@[k] == share(blend.pixels@, i as int, k),
{
    let w: [u32; 4] = [
        get_weight(blend, i, 0),
        get_weight(blend, i, 1),
        get_weight(blend, i, 2),
        get_weight(blend, i, 3),
    ];
    let total: u32 = arith::add_singles(
        arith::add_singles(arith::add_singles(w[0], w[1]), w[2]),
        w[3],
    );
    if arith::less_than(single::MILLI_BITS, total) {
        [
            arith::divide_singles(w[0], total),
            arith::divide_singles(w[1], total),
            arith::divide_singles(w[2], total),
            arith::divide_singles(w[3], total),
        ]
    } else {
        [QUARTER_BITS, QUARTER_BITS, QUARTER_BITS, QUARTER_BITS]
    }
}

fn find_texel(at: u32, size: u32, scale: u32, tile: u32) -> (r: u32)
    requires
        tile > 0,
    ensures
        r == texel(at, size, scale, tile),
        r < tile,
{
    let place: u32 = arith::divide_singles(arith::from_u32(at), arith::from_u32(size));
    let repeated: u32 = arith::multiply_singles(place, scale);
    let rest: u32 = arith::subtract_singles(repeated, arith::truncate(repeated));
    let n: u32 = single::to_u32(arith::multiply_singles(rest, arith::from_u32(tile)));
    if n < tile - 1 {
        n
    } else {
        tile - 1
    }
}

/// Where a pixel stands in an image.
proof fn pixel_lies_inside(x: int, y: int, w: int, h: int)
    requires
        0 <= x < w,
        0 <= y < h,
    ensures
        0 <= y * w + x < w * h,
{
    assert(0 <= y * w && y * w + w <= w * h) by (nonlinear_arith)
        requires
            0 <= y < h,
            0 < w,
    ;
}

pub(crate) fn find_pixel(image: &RgbaPixels, x: u32, y: u32) -> (r: usize)
    requires
        image.is_complete(),
        x < image.width,
        y < image.height,
    ensures
        r == y * image.width + x,
        4 * r + 4 <= image.pixels.len(),
{
    proof {
        pixel_lies_inside(x as int, y as int, image.width as int, image.height as int);
        assert(0 <= y * image.width) by (nonlinear_arith);
        assert(y * image.width <= 0xFFFF_FFFF * 0xFFFF_FFFF) by (nonlinear_arith)
            requires
                y <= 0xFFFF_FFFF,
                image.width <= 0xFFFF_FFFF,
        ;
        assert(4 * (y * image.width + x) + 4 <= image.pixels.len());
    }
    (y as u128 * image.width as u128 + x as u128) as usize
}

fn add_tint(value: u32, tint: &Option<[u32; 4]>, amount: u32, c: usize) -> (r: u32)
    requires
        c < 4,
    ensures
        r == tinted(value, *tint, amount, c as int),
{
    match tint {
        Some(t) => if arith::less_than(0, amount) {
            arith::add_singles(
                arith::multiply_singles(value, arith::subtract_singles(single::ONE_BITS, amount)),
                arith::multiply_singles(arith::multiply_singles(t[c], BYTE_BITS), amount),
            )
        } else {
            value
        },
        None => value,
    }
}

pub(crate) fn get_byte(value: u32) -> (r: u8)
    ensures
        r == to_byte(value),
{
    let n: u32 = single::to_u32(value);
    if n > 255 {
        255
    } else {
        n as u8
    }
}

fn bake_channel(
    blend: &RgbaPixels,
    tiles: &Vec<Option<RgbaPixels>>,
    inputs: &TiledLandInputs,
    shares: &[u32; 4],
    px: u32,
    py: u32,
    c: usize,
) -> (r: u8)
    requires
        c < 3,
        tiles@.len() == 4,
        forall|k: int|
            0 <= k < 4 ==> ((#[trigger] tiles@[k]) matches Some(t) ==> texture::is_tile(t)),
        forall|k: int|
            0 <= k < 4 ==> #[trigger] shares@[k] == share(
                blend.pixels@,
                py * blend.width + px,
                k,
            ),
    ensures
        r == to_byte(
            tinted(
                layered(
                    blend.pixels@,
                    blend.width,
                    blend.height,
                    texture::opt_images(tiles@),
                    inputs.tiles_scale,
                    px,
                    py,
                    c as int,
                    4,
                ),
                inputs.sheen_tint,
                inputs.sheen_amount,
                c as int,
            ),
        ),
{
    let mut value: u32 = 0;
    let ghost views = texture::opt_images(tiles@);
    let mut k: usize = 0;
    while k < 4
        invariant
            k <= 4,
            c < 3,
            tiles@.len() == 4,
            views == texture::opt_images(tiles@),
            forall|k: int|
                0 <= k < 4 ==> ((#[trigger] tiles@[k]) matches Some(t) ==> texture::is_tile(t)),
            forall|k: int|
                0 <= k < 4 ==> #[trigger] shares@[k] == share(
                    blend.pixels@,
                    py * blend.width + px,
                    k,
                ),
            value == layered(
                blend.pixels@,
                blend.width,
                blend.height,
                views,
                inputs.tiles_scale,
                px,
                py,
                c as int,
                k as int,
            ),
        decreases 4 - k,
    {
        assert(views[k as int] == texture::opt_image(tiles@[k as int]));
        assert(shares@[k as int] == share(blend.pixels@, py * blend.width + px, k as int));
        if let Some(tile) = &tiles[k] {
            if !arith::less_than(shares[k], single::MILLI_BITS) {
                let x: u32 = find_texel(px, blend.width, inputs.tiles_scale, tile.width);
                let y: u32 = find_texel(py, blend.height, inputs.tiles_scale, tile.height);
                let at: usize = find_pixel(tile, x, y);
                let sampled: u32 = arith::from_u32(tile.pixels[4 * at + c] as u32);
                value = arith::add_singles(value, arith::multiply_singles(sampled, shares[k]));
            }
        }
        k += 1;
    }
    get_byte(add_tint(value, &inputs.sheen_tint, inputs.sheen_amount, c))
}

/// Bakes the colours of terrain: the four tiles blended by the channels of a map.
pub fn bake_tiles(blend: &RgbaPixels, tiles: &Vec<Option<RgbaPixels>>, inputs: &TiledLandInputs) -> (r:
    RgbaPixels)
    requires
        texture::is_tile(*blend),
        tiles@.len() == 4,
        forall|k: int|
            0 <= k < 4 ==> ((#[trigger] tiles@[k]) matches Some(t) ==> texture::is_tile(t)),
    ensures
        r@ == (
            blend.width,
            blend.height,
            baked(
                blend.pixels@,
                blend.width,
                blend.height,
                texture::opt_images(tiles@),
                *inputs,
            ),
        ),
        texture::is_tile(r),
{
    let mut out: Vec<u8> = Vec::new();
    let ghost expected = baked(
        blend.pixels@,
        blend.width,
        blend.height,
        texture::opt_images(tiles@),
        *inputs,
    );
    assert(0 <= blend.width * blend.height) by (nonlinear_arith);
    let count: usize = blend.pixels.len() / 4;
    let mut i: usize = 0;
    let mut px: u32 = 0;
    let mut py: u32 = 0;
    while i < count
        invariant
            i <= count,
            count == blend.width * blend.height,
            count == blend.pixels.len() / 4,
            texture::is_tile(*blend),
            px < blend.width,
            i == py * blend.width + px,
            i < count ==> py < blend.height,
            out@.len() == 4 * i,
            expected == baked(
                blend.pixels@,
                blend.width,
                blend.height,
                texture::opt_images(tiles@),
                *inputs,
            ),
            forall|k: int| 0 <= k < 4 * i ==> (#[trigger] out@[k]) == expected[k],
            tiles@.len() == 4,
            forall|k: int|
                0 <= k < 4 ==> ((#[trigger] tiles@[k]) matches Some(t) ==> texture::is_tile(t)),
        decreases count - i,
    {
        proof {
            vstd::arithmetic::div_mod::lemma_fundamental_div_mod_converse(
                i as int,
                blend.width as int,
                py as int,
                px as int,
            );
            assert(py * blend.width == blend.width * py) by (nonlinear_arith);
        }
        let shares: [u32; 4] = get_shares(blend, i);
        let red: u8 = bake_channel(blend, tiles, inputs, &shares, px, py, 0);
        let green: u8 = bake_channel(blend, tiles, inputs, &shares, px, py, 1);
        let blue: u8 = bake_channel(blend, tiles, inputs, &shares, px, py, 2);
        let ghost before = out@;
        out.push(red);
        out.push(green);
        out.push(blue);
        out.push(255);
        assert forall|k: int| 0 <= k < 4 * (i + 1) implies (#[trigger] out@[k]) == expected[k] by {
            if k < 4 * i {
                assert(out@[k] == before[k]);
            } else {
                assert(k / 4 == i);
            }
        }
        i += 1;
        if px + 1 < blend.width {
            px += 1;
        } else {
            px = 0;
            py += 1;
        }
        proof {
            let (x, y, w, h) = (px as int, py as int, blend.width as int, blend.height as int);
            assert((y - 1) * w + w == y * w) by (nonlinear_arith);
            assert(y * w + x < w * h ==> y < h) by (nonlinear_arith)
                requires
                    0 <= x,
                    0 < w,
            ;
        }
    }
    assert(out@ =~= expected);
    RgbaPixels { width: blend.width, height: blend.height, pixels: out }
}

/// The baked texture of a terrain material as PNG, from the files of its tile atlas and
/// its blend map, reduced to a size limit. There is none without both files, or where one
/// of them cannot be read.
pub open spec fn baked_png(
    inputs: TiledLandInputs,
    atlas: Option<Seq<u8>>,
    blend: Option<Seq<u8>>,
    max_size: Option<u32>,
) -> Option<Seq<u8>> {
    match (atlas, blend) {
        (Some(a), Some(b)) => match (
            texture::tiles_of(a, inputs.tiles_index@),
            texture::decoded_dds(b),
        ) {
            (Some(tiles), Ok((w, h, p))) => match texture::png_of_reduced(
                w,
                h,
                baked(p, w, h, tiles, inputs),
                texture::target_size(w, h, max_size),
            ) {
                Ok(png) => Some(png),
                Err(_) => None,
            },
            _ => None,
        },
        _ => None,
    }
}

/// Bakes the texture of a terrain material. `atlas` and `blend` are the files of its
/// textures, where they are found. The file reads back as the blended colours, reduced to
/// the size limit.
pub fn bake_tiledland_albedo(
    inputs: &TiledLandInputs,
    atlas: &Option<Vec<u8>>,
    blend: &Option<Vec<u8>>,
    max_size: Option<u32>,
) -> (r: Option<Vec<u8>>)
    ensures
        pbr::opt_bytes(r) == baked_png(
            *inputs,
            pbr::opt_bytes(*atlas),
            pbr::opt_bytes(*blend),
            max_size,
        ),
        match (r, pbr::opt_bytes(*atlas), pbr::opt_bytes(*blend)) {
            (Some(file), Some(a), Some(b)) => match (
                texture::tiles_of(a, inputs.tiles_index@),
                texture::decoded_dds(b),
            ) {
                (Some(tiles), Ok((w, h, p))) => texture::shows(
                    texture::reduced(
                        w,
                        h,
                        baked(p, w, h, tiles, *inputs),
                        texture::target_size(w, h, max_size),
                    ),
                    file@,
                ),
                _ => false,
            },
            (Some(_), _, _) => false,
            (None, _, _) => true,
        },
{
    let (a, b) = match (atlas, blend) {
        (Some(a), Some(b)) => (a, b),
        _ => {
            return None;
        },
    };
    let tiles = match texture::tile_layers(a.as_slice(), &inputs.tiles_index) {
        Some(tiles) => tiles,
        None => {
            return None;
        },
    };
    let image = match texture::decode_single_mip_dds(b.as_slice()) {
        Ok(image) => image,
        Err(_) => {
            return None;
        },
    };
    let colours = bake_tiles(&image, &tiles, inputs);
    let target = texture::find_target_size(image.width, image.height, max_size);
    match texture::write_reduced_png(&colours, target) {
        Ok(png) => Some(png),
        Err(_) => None,
    }
}

// ---- What terrain shows -----------------------------------------------------

/// Where the size of the image, the number of repeats and the size of the tile are powers
/// of two, each repeat of the tile takes its share of the image, and the tile is stretched
/// evenly over it.
#[verifier::rlimit(50)]
pub proof fn tiles_are_spread_evenly(
    at: u32,
    size: u32,
    scale: u32,
    tile: u32,
    k: nat,
    s: nat,
    t: nat,
)
    requires
        k <= 23,
        s + t <= k,
        size == pow2(k),
        tile == pow2(t),
        exact::stands_for(scale, pow2(s) as int, 0),
        at < size,
    ensures
        texel(at, size, scale, tile) == (at as int % pow2((k - s) as nat) as int) / (pow2(
            (k - s - t) as nat,
        ) as int),
{
    lemma2_to64();
    if k < 23 {
        lemma_pow2_strictly_increases(k, 23);
    }
    if t < 23 {
        lemma_pow2_strictly_increases(t, 23);
    }
    let (e, f) = ((k - s) as nat, (k - s - t) as nat);
    exact::integers(at);
    exact::integers(size);
    exact::integers(tile);
    let (a, b) = (arith::integer_form(at), arith::integer_form(size));
    exact::quotients_by_powers(a, b, at as int, 0, k);
    let place = arith::quotient(a, b);
    exact::products_with_powers(place, scale, at as int, k, s);
    let x = arith::product(place, scale);
    exact::whole_parts(x, at as int, e);
    let d = pow2(e) as int;
    lemma_pow2_pos(e);
    let (q, r) = (at as int / d, at as int % d);
    lemma_fundamental_div_mod(at as int, d);
    lemma_mod_bound(at as int, d);
    exact::extended(arith::cut(x), q, 0, e);
    assert(q * d == d * q) by (nonlinear_arith);
    assert(0 <= r <= at) by {
        lemma_mod_decreases(at as nat, d as nat);
    }
    exact::differences(x, arith::cut(x), at as int, q * d, e);
    let rest = fraction(x);
    assert(r == at - q * d);
    exact::products_with_powers(rest, arith::integer_form(tile), r, e, t);
    let n = arith::product(rest, arith::integer_form(tile));
    exact::whole_parts(n, r, f);
    lemma_pow2_adds(f, t);
    lemma_pow2_pos(f);
    lemma_pow2_pos(t);
    lemma_multiply_divide_lt(r, pow2(f) as int, pow2(t) as int);
}

/// A tile as large as the image that is not repeated is shown as it is.
pub proof fn tiles_of_the_size_of_the_image_are_shown_as_they_are(at: u32, size: u32, k: nat)
    requires
        k <= 23,
        size == pow2(k),
        at < size,
    ensures
        texel(at, size, single::ONE_BITS, size) == at,
{
    lemma2_to64();
    exact::one();
    tiles_are_spread_evenly(at, size, single::ONE_BITS, size, k, 0, k);
    lemma_small_mod(at as nat, size as nat);
    assert(at as int / 1 == at);
}

proof fn texels_lie_inside(at: u32, size: u32, scale: u32, tile: u32)
    requires
        tile > 0,
    ensures
        0 <= texel(at, size, scale, tile) < tile,
{
    let place = arith::quotient(arith::integer_form(at), arith::integer_form(size));
    let n = arith::product(fraction(arith::product(place, scale)), arith::integer_form(tile));
    assert(single::whole(n) >= 0) by {
        single::magnitudes_are_nonnegative();
        lemma_pow2_pos(149);
        if !single::is_nan(n) && !single::is_negative(n) {
            lemma_div_pos_is_pos(single::scaled(n), pow2(149) as int);
        }
    }
}

/// A tile of horizontal stripes shows horizontal stripes: which row of the tile is shown
/// does not depend on the column of the image, nor on any width.
pub proof fn rows_show_rows(
    tile: pixels::ImageView,
    px: u32,
    other: u32,
    py: u32,
    w: u32,
    wide: u32,
    h: u32,
    scale: u32,
    c: int,
)
    requires
        tile.0 > 0,
        tile.1 > 0,
        0 <= c < 4,
        forall|x: int, z: int, y: int|
            0 <= x < tile.0 && 0 <= z < tile.0 && 0 <= y < tile.1 ==> #[trigger] tile.2[4 * (y
                * tile.0 + x) + c] == #[trigger] tile.2[4 * (y * tile.0 + z) + c],
    ensures
        sample(tile, px, py, w, h, scale, c) == sample(tile, other, py, wide, h, scale, c),
{
    texels_lie_inside(px, w, scale, tile.0);
    texels_lie_inside(other, wide, scale, tile.0);
    texels_lie_inside(py, h, scale, tile.1);
}

/// A tile of vertical stripes shows vertical stripes: which column of the tile is shown
/// does not depend on the row of the image, nor on any height.
pub proof fn columns_show_columns(
    tile: pixels::ImageView,
    px: u32,
    py: u32,
    other: u32,
    w: u32,
    h: u32,
    high: u32,
    scale: u32,
    c: int,
)
    requires
        tile.0 > 0,
        tile.1 > 0,
        0 <= c < 4,
        forall|x: int, y: int, z: int|
            0 <= x < tile.0 && 0 <= y < tile.1 && 0 <= z < tile.1 ==> #[trigger] tile.2[4 * (y
                * tile.0 + x) + c] == #[trigger] tile.2[4 * (z * tile.0 + x) + c],
    ensures
        sample(tile, px, py, w, h, scale, c) == sample(tile, px, other, w, high, scale, c),
{
    texels_lie_inside(px, w, scale, tile.0);
    texels_lie_inside(py, h, scale, tile.1);
    texels_lie_inside(other, high, scale, tile.1);
}

pub(crate) proof fn full_bytes_are_one()
    ensures
        exact::stands_for(BYTE_BITS, 255, 0),
        exact::stands_for(QUARTER_BITS, 1, 2),
        arith::quotient(byte_form(255), BYTE_BITS) == single::ONE_BITS,
        arith::quotient(byte_form(0), BYTE_BITS) == 0,
        arith::is_less(single::MILLI_BITS, single::ONE_BITS),
        arith::is_less(single::MILLI_BITS, QUARTER_BITS),
        arith::is_less(0, single::MILLI_BITS),
{
    lemma2_to64();
    arith::sizes_by_parts(BYTE_BITS);
    lemma_pow2_adds(16, 133);
    assert(0xFF_0000 * pow2(133) == 255 * (0x1_0000 * pow2(133)));
    assert(exact::stands_for(BYTE_BITS, 255, 0));
    arith::sizes_by_parts(QUARTER_BITS);
    lemma_pow2_adds(23, 124);
    assert(exact::stands_for(QUARTER_BITS, 1, 2));
    exact::integers(255);
    exact::integers(0);
    exact::patterns_are_unique(byte_form(255), BYTE_BITS, 255, 0);
    lemma_pow2_pos(149);
    exact::quotients_of_equals(BYTE_BITS);
    exact::quotients_of_zero(BYTE_BITS, 255, 0);
    single::scaled_magnitude_is_monotone(single::MILLI_BITS, single::ONE_BITS);
    single::scaled_magnitude_is_monotone(single::MILLI_BITS, QUARTER_BITS);
    single::scaled_magnitude_is_monotone(0, single::MILLI_BITS);
}

/// Where one layer has all the weight, it has the whole share, and the others have none.
pub proof fn full_weights_are_full_shares(b: Seq<u8>, i: int, j: int)
    requires
        0 <= j < 4,
        b[4 * i + j] == 255,
        forall|k: int| 0 <= k < 4 && k != j ==> #[trigger] b[4 * i + k] == 0,
    ensures
        share(b, i, j) == single::ONE_BITS,
        forall|k: int| 0 <= k < 4 && k != j ==> #[trigger] share(b, i, k) == 0,
{
    full_bytes_are_one();
    exact::one();
    exact::zero(0);
    let w = |k: int| if k == j { 1int } else { 0int };
    assert forall|k: int| 0 <= k < 4 implies exact::stands_for(#[trigger] weight(b, i, k), w(k), 0)
        && (k != j ==> weight(b, i, k) == 0) && (k == j ==> weight(b, i, k)
        == single::ONE_BITS) by {
        assert(k != j ==> b[4 * i + k] == 0);
    }
    let (a, c) = (weight(b, i, 0), weight(b, i, 1));
    let (d, e) = (weight(b, i, 2), weight(b, i, 3));
    exact::sums(a, c, w(0), w(1), 0);
    exact::sums(arith::sum(a, c), d, w(0) + w(1), w(2), 0);
    exact::sums(arith::sum(arith::sum(a, c), d), e, w(0) + w(1) + w(2), w(3), 0);
    exact::patterns_are_unique(weight_sum(b, i), single::ONE_BITS, 1, 0);
    lemma_pow2_pos(149);
    exact::quotients_of_equals(single::ONE_BITS);
    exact::quotients_of_zero(single::ONE_BITS, 1, 0);
}

/// Where all layers have full weight, or none has any, each has a quarter.
#[verifier::rlimit(50)]
pub proof fn equal_weights_are_equal_shares(b: Seq<u8>, i: int, k: int)
    requires
        0 <= k < 4,
        ({
            ||| b[4 * i] == 0 && b[4 * i + 1] == 0 && b[4 * i + 2] == 0 && b[4 * i + 3] == 0
            ||| b[4 * i] == 255 && b[4 * i + 1] == 255 && b[4 * i + 2] == 255 && b[4 * i + 3]
                == 255
        }),
    ensures
        share(b, i, k) == QUARTER_BITS,
{
    full_bytes_are_one();
    exact::one();
    exact::zero(0);
    lemma2_to64();
    let v = if b[4 * i] == 0 {
        0int
    } else {
        1int
    };
    let x = if b[4 * i] == 0 {
        0u32
    } else {
        single::ONE_BITS
    };
    assert(b[4 * i + 0] == b[4 * i]);
    assert(weight(b, i, 0) == x && weight(b, i, 1) == x && weight(b, i, 2) == x && weight(b, i, 3)
        == x);
    assert(weight(b, i, k) == x);
    exact::sums(x, x, v, v, 0);
    exact::sums(arith::sum(x, x), x, v + v, v, 0);
    exact::sums(arith::sum(arith::sum(x, x), x), x, v + v + v, v, 0);
    let total = weight_sum(b, i);
    lemma_pow2_pos(149);
    if v == 0 {
        assert(0 * pow2(149) == 0);
        assert(!arith::is_less(single::MILLI_BITS, total));
    } else {
        assert(single::scaled(total) == 4 * pow2(149));
        assert(arith::is_less(single::MILLI_BITS, total));
        exact::quotients_by_powers(x, total, 1, 0, 2);
        exact::patterns_are_unique(arith::quotient(x, total), QUARTER_BITS, 1, 2);
    }
}

proof fn bytes_are_kept(value: u32, v: int)
    requires
        0 <= v <= 255,
        exact::stands_for(value, v, 0),
        !single::is_negative(value),
    ensures
        to_byte(value) == v,
{
    lemma2_to64();
    exact::whole_parts(value, v, 0);
    assert(v / 1 == v);
}

/// Where one layer has all the weight and there is no sheen, terrain shows that layer.
#[verifier::rlimit(50)]
pub proof fn single_layers_are_shown(
    b: Seq<u8>,
    w: u32,
    h: u32,
    tiles: Seq<Option<pixels::ImageView>>,
    inputs: TiledLandInputs,
    px: u32,
    py: u32,
    c: int,
    j: int,
)
    requires
        0 <= j < 4,
        tiles.len() == 4,
        tiles[j] is Some,
        px < w,
        py < h,
        0 <= c < 3,
        b[4 * (py * w + px) + j] == 255,
        forall|k: int| 0 <= k < 4 && k != j ==> #[trigger] b[4 * (py * w + px) + k] == 0,
        inputs.sheen_tint is None || !arith::is_less(0, inputs.sheen_amount),
    ensures
        baked_channel(b, w, h, tiles, inputs, py * w + px, c) == sample(
            tiles[j]->0,
            px,
            py,
            w,
            h,
            inputs.tiles_scale,
            c,
        ),
{
    let i = py * w + px;
    lemma_fundamental_div_mod_converse(i, w as int, py as int, px as int);
    let scale = inputs.tiles_scale;
    let v = sample(tiles[j]->0, px, py, w, h, scale, c);
    full_weights_are_full_shares(b, i, j);
    full_bytes_are_one();
    exact::integers(v as u32);
    exact::products_with_one(byte_form(v));
    exact::zero(0);
    exact::sums(0, byte_form(v), 0, v as int, 0);
    let shown = arith::sum(0, byte_form(v));
    exact_signs(shown, v as int);
    assert(!arith::is_less(single::ONE_BITS, single::MILLI_BITS));
    let l = |n: int| layered(b, w, h, tiles, scale, px, py, c, n);
    assert(l(0) == 0);
    assert(l(1) == if j == 0 { shown } else { 0 }) by {
        assert(j != 0 ==> share(b, i, 0) == 0);
    }
    assert(l(2) == if j <= 1 { shown } else { 0 }) by {
        assert(j != 1 ==> share(b, i, 1) == 0);
    }
    assert(l(3) == if j <= 2 { shown } else { 0 }) by {
        assert(j != 2 ==> share(b, i, 2) == 0);
    }
    assert(l(4) == shown) by {
        assert(j != 3 ==> share(b, i, 3) == 0);
    }
    bytes_are_kept(shown, v as int);
}

proof fn exact_signs(value: u32, v: int)
    requires
        0 <= v,
        exact::stands_for(value, v, 0),
        v == 0 ==> !single::is_negative(value),
    ensures
        !single::is_negative(value),
{
    single::magnitudes_are_nonnegative();
    lemma_pow2_pos(149);
    assert(v > 0 ==> v * pow2(149) > 0) by (nonlinear_arith)
        requires
            pow2(149) > 0,
    ;
}

/// Where one layer has all the weight everywhere, its tile has the size of the blend map
/// and is not repeated, and there is no sheen, terrain is that tile, made opaque.
#[verifier::rlimit(50)]
pub proof fn whole_tiles_are_shown_as_they_are(
    b: Seq<u8>,
    w: u32,
    h: u32,
    tiles: Seq<Option<pixels::ImageView>>,
    inputs: TiledLandInputs,
    pixels: Seq<u8>,
    j: int,
    k: nat,
    l: nat,
)
    requires
        k <= 23,
        l <= 23,
        w == pow2(k),
        h == pow2(l),
        0 <= j < 4,
        tiles.len() == 4,
        tiles[j] == Some((w, h, pixels)),
        pixels.len() == 4 * (w * h),
        inputs.tiles_scale == single::ONE_BITS,
        inputs.sheen_tint is None || !arith::is_less(0, inputs.sheen_amount),
        forall|i: int|
            0 <= i < w * h ==> #[trigger] b[4 * i + j] == 255,
        forall|i: int, n: int|
            0 <= i < w * h && 0 <= n < 4 && n != j ==> #[trigger] b[4 * i + n] == 0,
    ensures
        baked(b, w, h, tiles, inputs) == pixels::opaque(pixels),
{
    let r = baked(b, w, h, tiles, inputs);
    let o = pixels::opaque(pixels);
    lemma_pow2_pos(k);
    lemma_pow2_pos(l);
    assert forall|n: int| 0 <= n < 4 * (w * h) implies r[n] == o[n] by {
        let (i, c) = (n / 4, n % 4);
        if c < 3 {
            let (x, y) = (i % (w as int), i / (w as int));
            lemma_fundamental_div_mod(i, w as int);
            lemma_mod_bound(i, w as int);
            lemma_div_pos_is_pos(i, w as int);
            lemma_multiply_divide_lt(i, w as int, h as int);
            assert(w * y == y * w) by (nonlinear_arith);
            let (px, py) = (x as u32, y as u32);
            assert(b[4 * i + j] == 255);
            assert forall|m: int| 0 <= m < 4 && m != j implies #[trigger] b[4 * (py * w + px) + m]
                == 0 by {
                assert(b[4 * i + m] == 0);
            }
            single_layers_are_shown(b, w, h, tiles, inputs, px, py, c, j);
            tiles_of_the_size_of_the_image_are_shown_as_they_are(px, w, k);
            tiles_of_the_size_of_the_image_are_shown_as_they_are(py, h, l);
        }
    }
    assert(r =~= o);
}

proof fn quarters_add_up(before: u32, n: int, v: u8)
    requires
        0 <= n <= 0x1000,
        exact::stands_for(before, n, 2),
        !single::is_negative(before),
    ensures
        exact::stands_for(
            arith::sum(before, arith::product(byte_form(v), QUARTER_BITS)),
            n + v,
            2,
        ),
        !single::is_negative(arith::sum(before, arith::product(byte_form(v), QUARTER_BITS))),
{
    full_bytes_are_one();
    exact::integers(v as u32);
    exact::products(byte_form(v), QUARTER_BITS, v as int, 1, 0, 2);
    let part = arith::product(byte_form(v), QUARTER_BITS);
    exact::sums(before, part, n, v as int, 2);
    let r = arith::sum(before, part);
    single::magnitudes_are_nonnegative();
    lemma_pow2_pos(147);
    assert(n + v > 0 ==> (n + v) * pow2(147) > 0) by (nonlinear_arith)
        requires
            pow2(147) > 0,
    ;
}

/// Where four layers have equal weight and there is no sheen, terrain shows their mean.
pub proof fn equal_layers_are_averaged(
    b: Seq<u8>,
    w: u32,
    h: u32,
    tiles: Seq<Option<pixels::ImageView>>,
    inputs: TiledLandInputs,
    px: u32,
    py: u32,
    c: int,
    shown: (u8, u8, u8, u8),
)
    requires
        tiles.len() == 4,
        tiles[0] is Some && tiles[1] is Some && tiles[2] is Some && tiles[3] is Some,
        px < w,
        py < h,
        0 <= c < 3,
        ({
            let i = py * w + px;
            ||| b[4 * i] == 0 && b[4 * i + 1] == 0 && b[4 * i + 2] == 0 && b[4 * i + 3] == 0
            ||| b[4 * i] == 255 && b[4 * i + 1] == 255 && b[4 * i + 2] == 255 && b[4 * i + 3]
                == 255
        }),
        inputs.sheen_tint is None || !arith::is_less(0, inputs.sheen_amount),
        shown.0 == sample(tiles[0]->0, px, py, w, h, inputs.tiles_scale, c),
        shown.1 == sample(tiles[1]->0, px, py, w, h, inputs.tiles_scale, c),
        shown.2 == sample(tiles[2]->0, px, py, w, h, inputs.tiles_scale, c),
        shown.3 == sample(tiles[3]->0, px, py, w, h, inputs.tiles_scale, c),
    ensures
        baked_channel(b, w, h, tiles, inputs, py * w + px, c) == (shown.0 + shown.1 + shown.2
            + shown.3) / 4,
{
    let i = py * w + px;
    lemma_fundamental_div_mod_converse(i, w as int, py as int, px as int);
    let scale = inputs.tiles_scale;
    full_bytes_are_one();
    exact::zero(2);
    equal_weights_are_equal_shares(b, i, 0);
    equal_weights_are_equal_shares(b, i, 1);
    equal_weights_are_equal_shares(b, i, 2);
    equal_weights_are_equal_shares(b, i, 3);
    let l = |n: int| layered(b, w, h, tiles, scale, px, py, c, n);
    assert(l(0) == 0);
    quarters_add_up(0, 0, shown.0);
    assert(l(1) == arith::sum(0, arith::product(byte_form(shown.0), QUARTER_BITS)));
    quarters_add_up(l(1), shown.0 as int, shown.1);
    assert(l(2) == arith::sum(l(1), arith::product(byte_form(shown.1), QUARTER_BITS)));
    quarters_add_up(l(2), shown.0 + shown.1, shown.2);
    assert(l(3) == arith::sum(l(2), arith::product(byte_form(shown.2), QUARTER_BITS)));
    quarters_add_up(l(3), shown.0 + shown.1 + shown.2, shown.3);
    assert(l(4) == arith::sum(l(3), arith::product(byte_form(shown.3), QUARTER_BITS)));
    lemma2_to64();
    exact::whole_parts(l(4), shown.0 + shown.1 + shown.2 + shown.3, 2);
}

/// A full sheen leaves nothing but the tint: with a tint of one in a channel, the channel
/// is full, with one of zero it is empty.
#[verifier::rlimit(50)]
pub proof fn full_sheens_hide_the_layers(value: u32, v: u8, t: [u32; 4], c: int)
    requires
        0 <= c < 3,
        exact::stands_for(value, v as int, 0),
        t@[c] == single::ONE_BITS || t@[c] == 0,
    ensures
        to_byte(tinted(value, Some(t), single::ONE_BITS, c)) == if t@[c] == 0 {
            0int
        } else {
            255int
        },
{
    full_bytes_are_one();
    exact::one();
    exact::zero(0);
    single::scaled_magnitude_is_monotone(0, single::ONE_BITS);
    exact::differences(single::ONE_BITS, single::ONE_BITS, 1, 1, 0);
    let none = arith::sum(single::ONE_BITS, single::negated(single::ONE_BITS));
    exact::products(value, none, v as int, 0, 0, 0);
    let n = if t@[c] == 0 {
        0int
    } else {
        1int
    };
    exact::products(t@[c], BYTE_BITS, n, 255, 0, 0);
    let full = arith::product(t@[c], BYTE_BITS);
    exact::products_with_one(full);
    let left = arith::product(value, none);
    exact::sums(left, full, 0, n * 255, 0);
    let r = arith::sum(left, full);
    if n == 0 {
        lemma_pow2_pos(149);
        lemma2_to64();
        assert(0 * pow2(149) == 0);
        lemma_basic_div(0, pow2(149) as int);
        assert(single::whole(r) == 0);
    } else {
        exact_signs(r, 255);
        bytes_are_kept(r, 255);
    }
}

} // verus!
