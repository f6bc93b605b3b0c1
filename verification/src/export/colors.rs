//! Colours: camouflage schemes in sRGB, and textures at the vertices of a mesh.
use vstd::prelude::*;
use vstd::arithmetic::div_mod::*;
use vstd::arithmetic::power2::*;

use crate::arith;
use crate::exact;
use crate::export::pixels::RgbaPixels;
use crate::export::texture;
use crate::export::tiledland;
use crate::single;

verus! {

// ---- Camouflage schemes -----------------------------------------------------

/// Bit pattern of 0.0031308, where the curve of sRGB starts.
pub const CURVE_START_BITS: u32 = 0x3B4D_2E1C;

/// Bit pattern of 12.92, the slope of sRGB before the curve.
pub const SLOPE_BITS: u32 = 0x414E_B852;

/// Bit pattern of 1.055, the scale of the curve.
pub const CURVE_SCALE_BITS: u32 = 0x3F87_0A3D;

/// Bit pattern of 0.055, the offset of the curve.
pub const CURVE_OFFSET_BITS: u32 = 0x3D61_47AE;

/// A number held between 0 and 1.
pub open spec fn held(c: u32) -> u32 {
    if arith::is_less(c, 0) {
        0
    } else if arith::is_less(single::ONE_BITS, c) {
        single::ONE_BITS
    } else {
        c
    }
}

/// Holds a number between 0 and 1.
pub fn hold(c: u32) -> (r: u32)
    ensures
        r == held(c),
{
    if arith::less_than(c, 0) {
        0
    } else if arith::less_than(single::ONE_BITS, c) {
        single::ONE_BITS
    } else {
        c
    }
}

/// A linear colour component, held between 0 and 1, in sRGB. `power` is the component to
/// the power of 1 / 2.4.
pub open spec fn srgb(c: u32, power: u32) -> u32 {
    if !single::is_nan(c) && !arith::is_less(CURVE_START_BITS, c) {
        arith::product(c, SLOPE_BITS)
    } else {
        arith::sum(arith::product(CURVE_SCALE_BITS, power), single::negated(CURVE_OFFSET_BITS))
    }
}

/// Converts a linear colour component to sRGB.
pub fn linear_to_srgb(c: u32, power: u32) -> (r: u32)
    ensures
        r == srgb(c, power),
{
    let is_number = c % 0x8000_0000 <= single::INFINITY_BITS;
    if is_number && !arith::less_than(CURVE_START_BITS, c) {
        arith::multiply_singles(c, SLOPE_BITS)
    } else {
        arith::subtract_singles(
            arith::multiply_singles(CURVE_SCALE_BITS, power),
            CURVE_OFFSET_BITS,
        )
    }
}

/// A number between 0 and 1 as a byte.
pub open spec fn unit_byte(c: u32) -> u8 {
    tiledland::to_byte(arith::product(c, tiledland::BYTE_BITS))
}

/// A linear colour as sRGB bytes. Alpha stays linear.
pub open spec fn color_bytes(color: Seq<u32>, powers: Seq<u32>) -> Seq<u8> {
    seq![
        unit_byte(srgb(held(color[0]), powers[0])),
        unit_byte(srgb(held(color[1]), powers[1])),
        unit_byte(srgb(held(color[2]), powers[2])),
        unit_byte(held(color[3])),
    ]
}

/// Converts a linear colour to sRGB bytes. `powers` are the first three components, held
/// between 0 and 1, to the power of 1 / 2.4.
pub fn to_color_bytes(color: &[u32; 4], powers: &[u32; 3]) -> (r: [u8; 4])
    ensures
        r@ == color_bytes(color@, powers@),
{
    let r: [u8; 4] = [
        to_unit_byte(linear_to_srgb(hold(color[0]), powers[0])),
        to_unit_byte(linear_to_srgb(hold(color[1]), powers[1])),
        to_unit_byte(linear_to_srgb(hold(color[2]), powers[2])),
        to_unit_byte(hold(color[3])),
    ];
    assert(r@ =~= color_bytes(color@, powers@));
    r
}

fn to_unit_byte(c: u32) -> (r: u8)
    ensures
        r == unit_byte(c),
{
    tiledland::get_byte(arith::multiply_singles(c, tiledland::BYTE_BITS))
}

// ---- Vertex colours ---------------------------------------------------------

/// A texture coordinate wrapped into one repetition of the texture.
pub open spec fn wrapped(t: u32) -> u32 {
    let rest = tiledland::fraction(t);
    if arith::is_less(rest, 0) {
        arith::sum(rest, single::ONE_BITS)
    } else {
        rest
    }
}

/// The column or row of a texture at a coordinate.
pub open spec fn texel_at(t: u32, size: u32) -> int {
    let n = single::whole(arith::product(wrapped(t), arith::integer_form(size)));
    if n < size - 1 {
        n
    } else {
        size - 1
    }
}

/// The colour of a texture at a coordinate, opaque.
pub open spec fn color_at(w: u32, h: u32, p: Seq<u8>, uv: Seq<u32>) -> Seq<u32> {
    let at = texel_at(uv[1], h) * w + texel_at(uv[0], w);
    seq![
        arith::quotient(tiledland::byte_form(p[4 * at]), tiledland::BYTE_BITS),
        arith::quotient(tiledland::byte_form(p[4 * at + 1]), tiledland::BYTE_BITS),
        arith::quotient(tiledland::byte_form(p[4 * at + 2]), tiledland::BYTE_BITS),
        single::ONE_BITS,
    ]
}

fn find_texel(t: u32, size: u32) -> (r: u32)
    requires
        size > 0,
    ensures
        r == texel_at(t, size),
        r < size,
{
    let rest: u32 = arith::subtract_singles(t, arith::truncate(t));
    let place: u32 = if arith::less_than(rest, 0) {
        arith::add_singles(rest, single::ONE_BITS)
    } else {
        rest
    };
    let n: u32 = single::to_u32(arith::multiply_singles(place, arith::from_u32(size)));
    if n < size - 1 {
        n
    } else {
        size - 1
    }
}

fn get_color(image: &RgbaPixels, uv: &[u32; 2]) -> (r: [u32; 4])
    requires
        texture::is_tile(*image),
    ensures
        r@ == color_at(image.width, image.height, image.pixels@, uv@),
{
    let x: u32 = find_texel(uv[0], image.width);
    let y: u32 = find_texel(uv[1], image.height);
    let at: usize = tiledland::find_pixel(image, x, y);
    let r: [u32; 4] = [
        arith::divide_singles(arith::from_u32(image.pixels[4 * at] as u32), tiledland::BYTE_BITS),
        arith::divide_singles(
            arith::from_u32(image.pixels[4 * at + 1] as u32),
            tiledland::BYTE_BITS,
        ),
        arith::divide_singles(
            arith::from_u32(image.pixels[4 * at + 2] as u32),
            tiledland::BYTE_BITS,
        ),
        single::ONE_BITS,
    ];
    assert(r@ =~= color_at(image.width, image.height, image.pixels@, uv@));
    r
}

/// Looks up the colours of the vertices of a mesh in its texture.
pub fn vertex_colors(image: &RgbaPixels, uvs: &Vec<[u32; 2]>) -> (r: Vec<[u32; 4]>)
    requires
        texture::is_tile(*image),
    ensures
        r@.len() == uvs@.len(),
        forall|i: int|
            0 <= i < r@.len() ==> (#[trigger] r@[i])@ == color_at(
                image.width,
                image.height,
                image.pixels@,
                uvs@[i]@,
            ),
{
    let mut out: Vec<[u32; 4]> = Vec::new();
    let mut i: usize = 0;
    while i < uvs.len()
        invariant
            i <= uvs.len(),
            texture::is_tile(*image),
            out@.len() == i,
            forall|k: int|
                0 <= k < i ==> (#[trigger] out@[k])@ == color_at(
                    image.width,
                    image.height,
                    image.pixels@,
                    uvs@[k]@,
                ),
        decreases uvs.len() - i,
    {
        out.push(get_color(image, &uvs[i]));
        i += 1;
    }
    out
}

// ---- What colours are -------------------------------------------------------

/// Numbers between zero and one are kept, others are brought to the nearer of the two, and
/// that is done once for all.
pub proof fn holding_brings_numbers_to_the_unit_range(c: u32)
    requires
        !single::is_nan(c),
    ensures
        !arith::is_less(held(c), 0),
        !arith::is_less(single::ONE_BITS, held(c)),
        !arith::is_less(c, 0) && !arith::is_less(single::ONE_BITS, c) ==> held(c) == c,
        arith::is_less(c, 0) ==> held(c) == 0,
        arith::is_less(single::ONE_BITS, c) ==> held(c) == single::ONE_BITS,
        held(held(c)) == held(c),
{
    single::scaled_magnitude_is_monotone(0, single::ONE_BITS);
}

/// One is a full byte, zero an empty one.
pub proof fn unit_bytes_span_the_range()
    ensures
        unit_byte(single::ONE_BITS) == 255,
        unit_byte(0) == 0,
{
    tiledland::full_bytes_are_one();
    exact::one();
    exact::zero(0);
    exact::products(single::ONE_BITS, tiledland::BYTE_BITS, 1, 255, 0, 0);
    exact::products(0, tiledland::BYTE_BITS, 0, 255, 0, 0);
    let full = arith::product(single::ONE_BITS, tiledland::BYTE_BITS);
    exact::signs_of_numbers(full, 255, 0);
    lemma2_to64();
    exact::whole_parts(full, 255, 0);
    assert(255int / 1 == 255);
    let none = arith::product(0, tiledland::BYTE_BITS);
    exact::whole_parts(none, 0, 0);
    assert(0int / 1 == 0);
}

/// A channel of a colour depends on that channel and its own power alone; black is black,
/// and the last channel is not bent: a full one is full, an empty one empty.
pub proof fn channels_are_converted_apart(
    color: Seq<u32>,
    other: Seq<u32>,
    powers: Seq<u32>,
    others: Seq<u32>,
    i: int,
)
    requires
        0 <= i < 4,
        color[i] == other[i],
        i < 3 ==> powers[i] == others[i],
    ensures
        color_bytes(color, powers)[i] == color_bytes(other, others)[i],
        color[i] == 0 ==> color_bytes(color, powers)[i] == 0,
        i == 3 && color[i] == single::ONE_BITS ==> color_bytes(color, powers)[i] == 255,
{
    unit_bytes_span_the_range();
    exact::zero(0);
    single::scaled_magnitude_is_monotone(0, single::ONE_BITS);
    single::scaled_magnitude_is_monotone(0, CURVE_START_BITS);
    exact::products_of_zero(SLOPE_BITS);
}

/// Inside an image whose size is a power of two, a coordinate shows the column or row that
/// lies at that share of the size.
#[verifier::rlimit(50)]
pub proof fn coordinates_show_their_share(t: u32, size: u32, m: int, k: nat, s: nat)
    requires
        s <= k <= 23,
        size == pow2(s),
        0 <= m < pow2(k),
        exact::stands_for(t, m, k),
        !single::is_negative(t),
    ensures
        texel_at(t, size) == m / (pow2((k - s) as nat) as int),
        0 <= texel_at(t, size) < size,
{
    lemma2_to64();
    if k < 23 {
        lemma_pow2_strictly_increases(k, 23);
    }
    if s < 23 {
        lemma_pow2_strictly_increases(s, 23);
    }
    lemma_pow2_pos(k);
    lemma_pow2_pos((k - s) as nat);
    exact::whole_parts(t, m, k);
    lemma_basic_div(m, pow2(k) as int);
    let none = arith::cut(t);
    exact::extended(none, 0, 0, k);
    assert(0 * pow2(k) == 0);
    exact::differences(t, none, m, 0, k);
    let rest = tiledland::fraction(t);
    exact::signs_of_numbers(rest, m, k);
    exact::zero(0);
    single::magnitudes_are_nonnegative();
    assert(!arith::is_less(rest, 0));
    exact::integers(size);
    exact::products_with_powers(rest, arith::integer_form(size), m, k, s);
    let n = arith::product(rest, arith::integer_form(size));
    exact::whole_parts(n, m, (k - s) as nat);
    lemma_pow2_adds((k - s) as nat, s);
    lemma_multiply_divide_lt(m, pow2((k - s) as nat) as int, pow2(s) as int);
}

/// The colour at a place of an image is that of the pixel there: the first coordinate goes
/// along the rows, the second one down the columns, and every channel keeps its place.
pub proof fn colours_are_those_of_the_pixel(
    w: u32,
    h: u32,
    p: Seq<u8>,
    uv: Seq<u32>,
    x: int,
    y: int,
    k: nat,
    l: nat,
)
    requires
        k <= 23,
        l <= 23,
        w == pow2(k),
        h == pow2(l),
        0 <= x < w,
        0 <= y < h,
        uv.len() == 2,
        exact::stands_for(uv[0], x, k),
        exact::stands_for(uv[1], y, l),
        !single::is_negative(uv[0]),
        !single::is_negative(uv[1]),
    ensures
        color_at(w, h, p, uv).len() == 4,
        forall|c: int|
            0 <= c < 3 ==> #[trigger] color_at(w, h, p, uv)[c] == arith::quotient(
                arith::integer_form(p[4 * (y * w + x) + c] as u32),
                tiledland::BYTE_BITS,
            ),
        color_at(w, h, p, uv)[3] == single::ONE_BITS,
        forall|c: int|
            0 <= c < 3 && p[4 * (y * w + x) + c] == 255 ==> #[trigger] color_at(w, h, p, uv)[c]
                == single::ONE_BITS,
        forall|c: int|
            0 <= c < 3 && p[4 * (y * w + x) + c] == 0 ==> #[trigger] color_at(w, h, p, uv)[c] == 0,
{
    lemma2_to64();
    coordinates_show_their_share(uv[0], w, x, k, k);
    coordinates_show_their_share(uv[1], h, y, l, l);
    assert(x / 1 == x && y / 1 == y);
    tiledland::full_bytes_are_one();
    let at = y * w + x;
    assert(4 * at + 0 == 4 * at);
}

/// Images are repeated in both directions: a coordinate shows what the share of the size
/// behind its whole part shows, also below zero.
#[verifier::rlimit(50)]
pub proof fn images_are_repeated(t: u32, size: u32, m: int, k: nat, s: nat)
    requires
        s <= k <= 22,
        size == pow2(s),
        exact::size(m) < 0x80_0000,
        exact::stands_for(t, m, k),
    ensures
        texel_at(t, size) == (m % (pow2(k) as int)) / (pow2((k - s) as nat) as int),
{
    lemma2_to64();
    lemma_pow2_pos(k);
    lemma_pow2_pos((k - s) as nat);
    lemma_pow2_strictly_increases(k, 23);
    lemma_pow2_strictly_increases(s, 23);
    let d = pow2(k) as int;
    let n = exact::size(m);
    exact::cuts(t, m, k);
    let q = n / d;
    lemma_fundamental_div_mod(n, d);
    lemma_mod_bound(n, d);
    let signed = if m < 0 {
        -q
    } else {
        q
    };
    let whole = arith::cut(t);
    exact::extended(whole, signed, 0, k);
    assert(q * d == d * q && (-q) * d == -(d * q)) by (nonlinear_arith);
    let r = m - signed * d;
    assert(m >= 0 ==> r == n % d);
    assert(m < 0 ==> r == -(n % d));
    exact::differences(t, whole, m, signed * d, k);
    let rest = tiledland::fraction(t);
    exact::signs_of_numbers(rest, r, k);
    exact::zero(0);
    single::magnitudes_are_nonnegative();
    let left = m % d;
    if r < 0 {
        assert(arith::is_less(rest, 0));
        exact::one();
        exact::extended(single::ONE_BITS, 1, 0, k);
        assert(1 * d == d);
        exact::sums(rest, single::ONE_BITS, r, d, k);
        assert(m == d * (-q - 1) + (r + d)) by (nonlinear_arith)
            requires
                m == r + (-q) * d,
        ;
        assert(d * (-q - 1) == (-q - 1) * d) by (nonlinear_arith);
        lemma_fundamental_div_mod_converse(m, d, -q - 1, r + d);
    } else {
        assert(!arith::is_less(rest, 0));
        assert(m == signed * d + r);
        lemma_fundamental_div_mod_converse(m, d, signed, r);
    }
    let w = wrapped(t);
    assert(exact::stands_for(w, left, k));
    exact::integers(size);
    exact::products_with_powers(w, arith::integer_form(size), left, k, s);
    let p = arith::product(w, arith::integer_form(size));
    let e = (k - s) as nat;
    exact::signs_of_numbers(p, left, e);
    lemma_pow2_adds(e, s);
    lemma_multiply_divide_lt(left, pow2(e) as int, pow2(s) as int);
    if left == 0 {
        lemma_pow2_pos((149 - e) as nat);
        lemma_pow2_pos(149);
        assert(0 * pow2((149 - e) as nat) == 0);
        lemma_basic_div(0, pow2(149) as int);
        lemma_basic_div(0, pow2(e) as int);
        assert(single::whole(p) == 0);
    } else {
        exact::whole_parts(p, left, e);
    }
}

} // verus!
