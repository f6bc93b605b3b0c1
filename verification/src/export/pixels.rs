//! Pixel arithmetic on 8-bit RGBA images.
use vstd::prelude::*;
use vstd::arithmetic::div_mod::*;

verus! {

/// An image of four bytes per pixel (red, green, blue, alpha), row by row.
#[derive(Debug)]
pub struct RgbaPixels {
    pub width: u32,
    pub height: u32,
    pub pixels: Vec<u8>,
}

impl RgbaPixels {
    /// Whether there are four bytes for every pixel.
    pub open spec fn is_complete(&self) -> bool {
        self.pixels@.len() == 4 * (self.width * self.height)
    }
}

/// Width, height and bytes of an image.
pub type ImageView = (u32, u32, Seq<u8>);

impl View for RgbaPixels {
    type V = ImageView;

    open spec fn view(&self) -> ImageView {
        (self.width, self.height, self.pixels@)
    }
}

/// An image with all pixels opaque.
pub open spec fn opaque(p: Seq<u8>) -> Seq<u8> {
    Seq::new(
        p.len(),
        |i: int|
            if i % 4 == 3 {
                255u8
            } else {
                p[i]
            },
    )
}

/// A metallic-gloss image as metallic-roughness: red stays, green is the inverted
/// blue (roughness from gloss), blue is the former green (metallic), alpha is full.
pub open spec fn metallic_roughness(p: Seq<u8>) -> Seq<u8> {
    Seq::new(
        p.len(),
        |i: int|
            if i % 4 == 0 {
                p[i]
            } else if i % 4 == 1 {
                (255 - p[i + 1]) as u8
            } else if i % 4 == 2 {
                p[i - 1]
            } else {
                255u8
            },
    )
}

/// 255^2 times the square of the Z component that completes X and Y to a unit
/// vector, X and Y being stored as bytes that map 0..=255 to -1..=1. Zero if X and
/// Y alone are too long.
pub open spec fn z_square(x: u8, y: u8) -> int {
    let s = 255 * 255 - (2 * x - 255) * (2 * x - 255) - (2 * y - 255) * (2 * y - 255);
    if s < 0 {
        0
    } else {
        s
    }
}

/// Whether `k` is the byte nearest to `255 * (z + 1) / 2`, halves rounded up, for
/// the Z component `z` that completes X and Y.
pub open spec fn encodes_z(x: u8, y: u8, k: int) -> bool {
    &&& 128 <= k <= 255
    &&& (2 * k - 256) * (2 * k - 256) <= z_square(x, y) < (2 * k - 254) * (2 * k - 254)
}

/// The stored Z component that completes X and Y.
pub open spec fn z_byte(x: u8, y: u8) -> u8 {
    (choose|k: int| encodes_z(x, y, k)) as u8
}

/// A normal image with its blue channel replaced by the Z component that completes
/// red and green, and alpha full.
pub open spec fn with_reconstructed_z(p: Seq<u8>) -> Seq<u8> {
    Seq::new(
        p.len(),
        |i: int|
            if i % 4 == 2 {
                z_byte(p[i - 2], p[i - 1])
            } else if i % 4 == 3 {
                255u8
            } else {
                p[i]
            },
    )
}

/// The blue channel of an image as a red-only image.
pub open spec fn blue_as_red(p: Seq<u8>) -> Seq<u8> {
    Seq::new(
        p.len(),
        |i: int|
            if i % 4 == 0 {
                p[i + 2]
            } else if i % 4 == 3 {
                255u8
            } else {
                0u8
            },
    )
}

/// The colour zone of a mask pixel: 1, 2 or 3 if red, green or blue dominates
/// and exceeds 30, else 0.
pub open spec fn zone(r: u8, g: u8, b: u8) -> int {
    if r > g && r > b && r > 30 {
        1
    } else if g > r && g > b && g > 30 {
        2
    } else if b > r && b > g && b > 30 {
        3
    } else {
        0
    }
}

/// A mask with every pixel replaced by the colour of its zone.
pub open spec fn recoloured(p: Seq<u8>, colors: Seq<Seq<u8>>) -> Seq<u8> {
    Seq::new(
        p.len(),
        |i: int|
            {
                let k = i - i % 4;
                colors[zone(p[k], p[k + 1], p[k + 2])][i % 4]
            },
    )
}

/// Makes all pixels opaque.
pub fn make_opaque(p: &Vec<u8>) -> (r: Vec<u8>)
    ensures
        r@ == opaque(p@),
{
    let mut out: Vec<u8> = Vec::new();
    let mut i: usize = 0;
    while i < p.len()
        invariant
            i <= p.len(),
            out@ == opaque(p@).take(i as int),
        decreases p.len() - i,
    {
        if i % 4 == 3 {
            out.push(255);
        } else {
            out.push(p[i]);
        }
        i += 1;
        assert(out@ =~= opaque(p@).take(i as int));
    }
    assert(opaque(p@).take(p@.len() as int) =~= opaque(p@));
    out
}

/// Repacks a metallic-gloss image as metallic-roughness.
pub fn to_metallic_roughness(p: &Vec<u8>) -> (r: Vec<u8>)
    requires
        p@.len() % 4 == 0,
    ensures
        r@ == metallic_roughness(p@),
{
    let mut out: Vec<u8> = Vec::new();
    let mut i: usize = 0;
    let ghost full = metallic_roughness(p@);
    while i < p.len()
        invariant
            i <= p.len(),
            i % 4 == 0,
            p@.len() % 4 == 0,
            full == metallic_roughness(p@),
            out@ == full.take(i as int),
        decreases p.len() - i,
    {
        out.push(p[i]);
        out.push(255 - p[i + 2]);
        out.push(p[i + 1]);
        out.push(255);
        assert(out@ =~= full.take(i + 4));
        i += 4;
    }
    assert(full.take(p@.len() as int) =~= full);
    out
}

proof fn z_byte_is_unique(x: u8, y: u8, k: int)
    requires
        encodes_z(x, y, k),
    ensures
        z_byte(x, y) == k,
{
    let j = choose|j: int| encodes_z(x, y, j);
    assert(encodes_z(x, y, j));
    if j < k {
        assert((2 * j - 254) * (2 * j - 254) <= (2 * k - 256) * (2 * k - 256)) by (nonlinear_arith)
            requires
                0 <= 2 * j - 254,
                2 * j - 254 <= 2 * k - 256,
        ;
    }
    if k < j {
        assert((2 * k - 254) * (2 * k - 254) <= (2 * j - 256) * (2 * j - 256)) by (nonlinear_arith)
            requires
                0 <= 2 * k - 254,
                2 * k - 254 <= 2 * j - 256,
        ;
    }
}

fn square_of_offset(x: u8) -> (r: i32)
    ensures
        r == (2 * x - 255) * (2 * x - 255),
        0 <= r <= 65025,
{
    let d: i32 = 2 * (x as i32) - 255;
    assert(0 <= d * d <= 65025) by (nonlinear_arith)
        requires
            -255 <= d <= 255,
    ;
    d * d
}

/// The stored Z component that completes X and Y to a unit vector.
pub fn reconstruct_z(x: u8, y: u8) -> (r: u8)
    ensures
        r == z_byte(x, y),
        encodes_z(x, y, r as int),
{
    let s: i32 = 65025 - square_of_offset(x) - square_of_offset(y);
    let sq: i32 = if s < 0 {
        0
    } else {
        s
    };
    assert(sq == z_square(x, y));
    let mut k: i32 = 128;
    assert((2 * k - 256) * (2 * k - 256) == 0) by (nonlinear_arith)
        requires
            k == 128,
    ;
    while k < 255
        invariant_except_break
            128 <= k <= 255,
            0 <= sq <= 65025,
            (2 * k - 256) * (2 * k - 256) <= sq,
            k < 255 || (2 * k - 254) * (2 * k - 254) == 65536,
        ensures
            128 <= k <= 255,
            (2 * k - 256) * (2 * k - 256) <= sq < (2 * k - 254) * (2 * k - 254),
        decreases 255 - k,
    {
        let next: i32 = 2 * k - 254;
        assert(0 <= next * next <= 65536) by (nonlinear_arith)
            requires
                2 <= next <= 256,
        ;
        if sq < next * next {
            break;
        }
        k += 1;
        assert(2 * k - 256 == next);
        assert(k == 255 ==> (2 * k - 254) * (2 * k - 254) == 65536) by (nonlinear_arith);
    }
    proof {
        z_byte_is_unique(x, y, k as int);
    }
    k as u8
}

/// Replaces the blue channel of a normal image by the reconstructed Z component.
pub fn reconstruct_normals(p: &Vec<u8>) -> (r: Vec<u8>)
    requires
        p@.len() % 4 == 0,
    ensures
        r@ == with_reconstructed_z(p@),
{
    let mut out: Vec<u8> = Vec::new();
    let mut i: usize = 0;
    let ghost full = with_reconstructed_z(p@);
    while i < p.len()
        invariant
            i <= p.len(),
            i % 4 == 0,
            p@.len() % 4 == 0,
            full == with_reconstructed_z(p@),
            out@ == full.take(i as int),
        decreases p.len() - i,
    {
        out.push(p[i]);
        out.push(p[i + 1]);
        out.push(reconstruct_z(p[i], p[i + 1]));
        out.push(255);
        assert(out@ =~= full.take(i + 4));
        i += 4;
    }
    assert(full.take(p@.len() as int) =~= full);
    out
}

/// Moves the blue channel of an image to the red channel.
pub fn extract_blue(p: &Vec<u8>) -> (r: Vec<u8>)
    requires
        p@.len() % 4 == 0,
    ensures
        r@ == blue_as_red(p@),
{
    let mut out: Vec<u8> = Vec::new();
    let mut i: usize = 0;
    let ghost full = blue_as_red(p@);
    while i < p.len()
        invariant
            i <= p.len(),
            i % 4 == 0,
            p@.len() % 4 == 0,
            full == blue_as_red(p@),
            out@ == full.take(i as int),
        decreases p.len() - i,
    {
        out.push(p[i + 2]);
        out.push(0);
        out.push(0);
        out.push(255);
        assert(out@ =~= full.take(i + 4));
        i += 4;
    }
    assert(full.take(p@.len() as int) =~= full);
    out
}

/// The colour zone of a mask pixel.
pub fn classify(r: u8, g: u8, b: u8) -> (z: usize)
    ensures
        z == zone(r, g, b),
        z < 4,
{
    if r > g && r > b && r > 30 {
        1
    } else if g > r && g > b && g > 30 {
        2
    } else if b > r && b > g && b > 30 {
        3
    } else {
        0
    }
}

pub open spec fn color_views(colors: Seq<[u8; 4]>) -> Seq<Seq<u8>> {
    Seq::new(colors.len(), |i: int| colors[i]@)
}

/// Replaces every mask pixel by the colour of its zone.
pub fn recolour(p: &Vec<u8>, colors: &[[u8; 4]; 4]) -> (r: Vec<u8>)
    requires
        p@.len() % 4 == 0,
    ensures
        r@ == recoloured(p@, color_views(colors@)),
{
    let mut out: Vec<u8> = Vec::new();
    let mut i: usize = 0;
    let ghost full = recoloured(p@, color_views(colors@));
    while i < p.len()
        invariant
            i <= p.len(),
            i % 4 == 0,
            p@.len() % 4 == 0,
            full == recoloured(p@, color_views(colors@)),
            out@ == full.take(i as int),
        decreases p.len() - i,
    {
        let z: usize = classify(p[i], p[i + 1], p[i + 2]);
        let c: [u8; 4] = colors[z];
        assert(color_views(colors@)[z as int] == c@);
        out.push(c[0]);
        out.push(c[1]);
        out.push(c[2]);
        out.push(c[3]);
        assert(out@ =~= full.take(i + 4));
        i += 4;
    }
    assert(full.take(p@.len() as int) =~= full);
    out
}

/// First source row or column of destination row or column `d`, when `from` rows or
/// columns are reduced to `to`.
pub open spec fn span_start(d: int, from: int, to: int) -> int {
    d * from / to
}

/// One channel summed over columns `x0..x1` of row `y`.
pub open spec fn row_sum(p: Seq<u8>, w: int, y: int, x0: int, x1: int, c: int) -> int
    decreases x1 - x0,
{
    if x1 <= x0 {
        0
    } else {
        row_sum(p, w, y, x0, x1 - 1, c) + p[4 * (y * w + (x1 - 1)) + c]
    }
}

/// One channel summed over a rectangle of pixels.
pub open spec fn area_sum(p: Seq<u8>, w: int, x0: int, x1: int, y0: int, y1: int, c: int) -> int
    decreases y1 - y0,
{
    if y1 <= y0 {
        0
    } else {
        area_sum(p, w, x0, x1, y0, y1 - 1, c) + row_sum(p, w, y1 - 1, x0, x1, c)
    }
}

/// One channel of a destination pixel: the mean over the source pixels that map to
/// it, rounded down; zero if there are none.
pub open spec fn box_mean(
    p: Seq<u8>,
    w: int,
    h: int,
    nw: int,
    nh: int,
    dx: int,
    dy: int,
    c: int,
) -> int {
    let (x0, x1) = (span_start(dx, w, nw), span_start(dx + 1, w, nw));
    let (y0, y1) = (span_start(dy, h, nh), span_start(dy + 1, h, nh));
    let count = (x1 - x0) * (y1 - y0);
    if count > 0 {
        area_sum(p, w, x0, x1, y0, y1, c) / count
    } else {
        0
    }
}

/// An image of `w * h` pixels reduced to `nw * nh` by box filtering.
pub open spec fn box_filtered(p: Seq<u8>, w: int, h: int, nw: int, nh: int) -> Seq<u8> {
    Seq::new(
        (4 * (nw * nh)) as nat,
        |k: int| box_mean(p, w, h, nw, nh, (k / 4) % nw, (k / 4) / nw, k % 4) as u8,
    )
}

proof fn span_bounds(d: int, from: int, to: int)
    requires
        0 <= d < to,
        0 <= from,
    ensures
        0 <= span_start(d, from, to) <= span_start(d + 1, from, to) <= from,
{
    assert(d * from <= (d + 1) * from) by (nonlinear_arith)
        requires
            from >= 0,
    ;
    assert((d + 1) * from <= to * from) by (nonlinear_arith)
        requires
            d + 1 <= to,
            from >= 0,
    ;
    assert(0 <= d * from) by (nonlinear_arith)
        requires
            d >= 0,
            from >= 0,
    ;
    lemma_div_is_ordered(d * from, (d + 1) * from, to);
    lemma_div_is_ordered((d + 1) * from, to * from, to);
    lemma_div_pos_is_pos(d * from, to);
    assert(to * from == from * to) by (nonlinear_arith);
    lemma_div_by_multiple(from, to);
}

proof fn area_sum_bounds(p: Seq<u8>, w: int, x0: int, x1: int, y0: int, y1: int, c: int)
    requires
        x0 <= x1,
        y0 <= y1,
    ensures
        0 <= area_sum(p, w, x0, x1, y0, y1, c) <= 255 * ((x1 - x0) * (y1 - y0)),
    decreases y1 - y0,
{
    if y0 < y1 {
        area_sum_bounds(p, w, x0, x1, y0, y1 - 1, c);
        row_sum_bounds(p, w, y1 - 1, x0, x1, c);
        assert((x1 - x0) * (y1 - y0) == (x1 - x0) * (y1 - 1 - y0) + (x1 - x0)) by (nonlinear_arith);
    } else {
        assert((x1 - x0) * (y1 - y0) == 0) by (nonlinear_arith)
            requires
                y1 == y0,
        ;
    }
}

proof fn row_sum_bounds(p: Seq<u8>, w: int, y: int, x0: int, x1: int, c: int)
    requires
        x0 <= x1,
    ensures
        0 <= row_sum(p, w, y, x0, x1, c) <= 255 * (x1 - x0),
    decreases x1 - x0,
{
    if x0 < x1 {
        row_sum_bounds(p, w, y, x0, x1 - 1, c);
    }
}

proof fn pixel_in_image(x: int, y: int, w: int, h: int)
    requires
        0 <= x < w,
        0 <= y < h,
    ensures
        0 <= y * w,
        0 <= y * w + x < w * h,
{
    assert(0 <= y * w && y * w + w <= w * h) by (nonlinear_arith)
        requires
            0 <= y,
            y + 1 <= h,
            0 < w,
    ;
}

/// Sums the four channels over a rectangle of pixels.
fn sum_area(p: &Vec<u8>, w: u32, h: u32, x0: u32, x1: u32, y0: u32, y1: u32) -> (r: (
    u128,
    u128,
    u128,
    u128,
))
    requires
        p.len() == 4 * (w * h),
        x0 <= x1 <= w,
        y0 <= y1 <= h,
    ensures
        r.0 == area_sum(p@, w as int, x0 as int, x1 as int, y0 as int, y1 as int, 0),
        r.1 == area_sum(p@, w as int, x0 as int, x1 as int, y0 as int, y1 as int, 1),
        r.2 == area_sum(p@, w as int, x0 as int, x1 as int, y0 as int, y1 as int, 2),
        r.3 == area_sum(p@, w as int, x0 as int, x1 as int, y0 as int, y1 as int, 3),
{
    let ghost (wi, a, z, t) = (w as int, x0 as int, x1 as int, y0 as int);
    assert((x1 - x0) * (y1 - y0) <= 0xFFFF_FFFF * 0xFFFF_FFFF) by (nonlinear_arith)
        requires
            0 <= x1 - x0 <= 0xFFFF_FFFF,
            0 <= y1 - y0 <= 0xFFFF_FFFF,
    ;
    let mut sr: u128 = 0;
    let mut sg: u128 = 0;
    let mut sb: u128 = 0;
    let mut sa: u128 = 0;
    let mut y: u32 = y0;
    while y < y1
        invariant
            y0 <= y <= y1 <= h,
            x0 <= x1 <= w,
            p.len() == 4 * (w * h),
            255 * ((x1 - x0) * (y1 - y0)) <= u128::MAX,
            (wi, a, z, t) == (w as int, x0 as int, x1 as int, y0 as int),
            sr == area_sum(p@, wi, a, z, t, y as int, 0),
            sg == area_sum(p@, wi, a, z, t, y as int, 1),
            sb == area_sum(p@, wi, a, z, t, y as int, 2),
            sa == area_sum(p@, wi, a, z, t, y as int, 3),
        decreases y1 - y,
    {
        let ghost (r0, g0, b0, a0) = (sr as int, sg as int, sb as int, sa as int);
        let mut x: u32 = x0;
        while x < x1
            invariant
                x0 <= x <= x1 <= w,
                y0 <= y < y1 <= h,
                p.len() == 4 * (w * h),
                255 * ((x1 - x0) * (y1 - y0)) <= u128::MAX,
                (wi, a, z, t) == (w as int, x0 as int, x1 as int, y0 as int),
                r0 == area_sum(p@, wi, a, z, t, y as int, 0),
                g0 == area_sum(p@, wi, a, z, t, y as int, 1),
                b0 == area_sum(p@, wi, a, z, t, y as int, 2),
                a0 == area_sum(p@, wi, a, z, t, y as int, 3),
                sr == r0 + row_sum(p@, wi, y as int, a, x as int, 0),
                sg == g0 + row_sum(p@, wi, y as int, a, x as int, 1),
                sb == b0 + row_sum(p@, wi, y as int, a, x as int, 2),
                sa == a0 + row_sum(p@, wi, y as int, a, x as int, 3),
            decreases x1 - x,
        {
            proof {
                pixel_in_image(x as int, y as int, w as int, h as int);
                sum_step_fits(p@, wi, a, x as int, z, t, y as int, y1 as int, 0);
                sum_step_fits(p@, wi, a, x as int, z, t, y as int, y1 as int, 1);
                sum_step_fits(p@, wi, a, x as int, z, t, y as int, y1 as int, 2);
                sum_step_fits(p@, wi, a, x as int, z, t, y as int, y1 as int, 3);
            }
            let i: usize = 4 * (y as usize * w as usize + x as usize);
            sr += p[i] as u128;
            sg += p[i + 1] as u128;
            sb += p[i + 2] as u128;
            sa += p[i + 3] as u128;
            x += 1;
        }
        y += 1;
    }
    (sr, sg, sb, sa)
}

proof fn sum_step_fits(
    p: Seq<u8>,
    w: int,
    x0: int,
    x: int,
    x1: int,
    y0: int,
    y: int,
    y1: int,
    c: int,
)
    requires
        x0 <= x < x1,
        y0 <= y < y1,
    ensures
        area_sum(p, w, x0, x1, y0, y, c) + row_sum(p, w, y, x0, x, c) + 255 <= 255 * ((x1 - x0) * (
        y1 - y0)),
{
    area_sum_bounds(p, w, x0, x1, y0, y, c);
    row_sum_bounds(p, w, y, x0, x, c);
    assert((x1 - x0) * (y - y0) + (x1 - x0) <= (x1 - x0) * (y1 - y0)) by (nonlinear_arith)
        requires
            y + 1 <= y1,
            x0 <= x1,
    ;
}

/// First source row or column of a destination row or column.
fn span(d: u32, from: u32, to: u32) -> (r: u32)
    requires
        d <= to,
        0 < to,
    ensures
        r == span_start(d as int, from as int, to as int),
        r <= from,
{
    assert(0 <= d * from <= to * from) by (nonlinear_arith)
        requires
            0 <= d <= to,
            from >= 0,
    ;
    assert(to * from <= 0xFFFF_FFFF * 0xFFFF_FFFF) by (nonlinear_arith)
        requires
            to <= 0xFFFF_FFFF,
            from <= 0xFFFF_FFFF,
    ;
    proof {
        lemma_div_is_ordered(d * from, to * from, to as int);
        assert(to * from == from * to) by (nonlinear_arith);
        lemma_div_by_multiple(from as int, to as int);
        lemma_div_pos_is_pos(d * from, to as int);
    }
    (d as u64 * from as u64 / to as u64) as u32
}

/// One destination pixel of a box filter.
fn box_pixel(p: &Vec<u8>, w: u32, h: u32, nw: u32, nh: u32, dx: u32, dy: u32) -> (r: [u8; 4])
    requires
        p.len() == 4 * (w * h),
        dx < nw,
        dy < nh,
    ensures
        forall|c: int|
            0 <= c < 4 ==> #[trigger] r@[c] == box_mean(
                p@,
                w as int,
                h as int,
                nw as int,
                nh as int,
                dx as int,
                dy as int,
                c,
            ),
{
    let x0: u32 = span(dx, w, nw);
    let x1: u32 = span(dx + 1, w, nw);
    let y0: u32 = span(dy, h, nh);
    let y1: u32 = span(dy + 1, h, nh);
    proof {
        span_bounds(dx as int, w as int, nw as int);
        span_bounds(dy as int, h as int, nh as int);
        assert(0 <= (x1 - x0) * (y1 - y0) <= w * h) by (nonlinear_arith)
            requires
                0 <= x1 - x0 <= w,
                0 <= y1 - y0 <= h,
        ;
    }
    let count: u128 = (x1 - x0) as u128 * (y1 - y0) as u128;
    if count == 0 {
        return [0u8; 4];
    }
    let (sr, sg, sb, sa) = sum_area(p, w, h, x0, x1, y0, y1);
    proof {
        let (wi, a, z, t, u) = (w as int, x0 as int, x1 as int, y0 as int, y1 as int);
        mean_is_a_byte(p@, wi, a, z, t, u, 0);
        mean_is_a_byte(p@, wi, a, z, t, u, 1);
        mean_is_a_byte(p@, wi, a, z, t, u, 2);
        mean_is_a_byte(p@, wi, a, z, t, u, 3);
    }
    [(sr / count) as u8, (sg / count) as u8, (sb / count) as u8, (sa / count) as u8]
}

proof fn mean_is_a_byte(p: Seq<u8>, w: int, x0: int, x1: int, y0: int, y1: int, c: int)
    requires
        x0 <= x1,
        y0 <= y1,
        (x1 - x0) * (y1 - y0) > 0,
    ensures
        0 <= area_sum(p, w, x0, x1, y0, y1, c) / ((x1 - x0) * (y1 - y0)) <= 255,
{
    let n = (x1 - x0) * (y1 - y0);
    area_sum_bounds(p, w, x0, x1, y0, y1, c);
    let s = area_sum(p, w, x0, x1, y0, y1, c);
    lemma_div_is_ordered(s, 255 * n, n);
    lemma_div_by_multiple(255, n);
    lemma_div_pos_is_pos(s, n);
}

/// Reduces an image to `nw * nh` pixels by box filtering.
pub fn box_filter(image: &RgbaPixels, nw: u32, nh: u32) -> (r: RgbaPixels)
    requires
        image.is_complete(),
        nw > 0,
        nh > 0,
    ensures
        r@ == (
            nw,
            nh,
            box_filtered(
                image.pixels@,
                image.width as int,
                image.height as int,
                nw as int,
                nh as int,
            ),
        ),
        r.is_complete(),
{
    let (w, h): (u32, u32) = (image.width, image.height);
    let p = &image.pixels;
    let ghost full = box_filtered(p@, w as int, h as int, nw as int, nh as int);
    assert(0 <= nw * nh) by (nonlinear_arith)
        requires
            nw > 0,
            nh > 0,
    ;
    let mut out: Vec<u8> = Vec::new();
    let mut dy: u32 = 0;
    assert(out@ =~= full.take(0));
    while dy < nh
        invariant
            dy <= nh,
            nw > 0,
            p.len() == 4 * (w * h),
            full == box_filtered(p@, w as int, h as int, nw as int, nh as int),
            full.len() == 4 * (nw * nh),
            out@ == full.take(4 * (dy * nw)),
        decreases nh - dy,
    {
        let mut dx: u32 = 0;
        while dx < nw
            invariant
                dx <= nw,
                dy < nh,
                nw > 0,
                p.len() == 4 * (w * h),
                full == box_filtered(p@, w as int, h as int, nw as int, nh as int),
                full.len() == 4 * (nw * nh),
                out@ == full.take(4 * (dy * nw + dx)),
            decreases nw - dx,
        {
            let px: [u8; 4] = box_pixel(p, w, h, nw, nh, dx, dy);
            let ghost at = 4 * (dy * nw + dx);
            proof {
                pixel_in_image(dx as int, dy as int, nw as int, nh as int);
                let m = dy * nw + dx;
                lemma_fundamental_div_mod_converse(m, nw as int, dy as int, dx as int);
                assert forall|c: int| 0 <= c < 4 implies #[trigger] full[at + c] == px@[c] by {
                    assert((at + c) / 4 == m && (at + c) % 4 == c);
                    assert(px@[c] == box_mean(
                        p@,
                        w as int,
                        h as int,
                        nw as int,
                        nh as int,
                        dx as int,
                        dy as int,
                        c,
                    ));
                }
                assert(full[at + 0] == px@[0] && full[at + 1] == px@[1] && full[at + 2] == px@[2]
                    && full[at + 3] == px@[3]);
            }
            out.push(px[0]);
            out.push(px[1]);
            out.push(px[2]);
            out.push(px[3]);
            assert(out@ =~= full.take(at + 4));
            dx += 1;
        }
        assert(dy * nw + nw == (dy + 1) * nw) by (nonlinear_arith);
        dy += 1;
    }
    assert(nh * nw == nw * nh) by (nonlinear_arith);
    assert(full.take(4 * (nh * nw)) =~= full);
    RgbaPixels { width: nw, height: nh, pixels: out }
}

proof fn row_sum_of_constant(p: Seq<u8>, w: int, y: int, x0: int, x1: int, c: int, v: u8)
    requires
        x0 <= x1,
        forall|x: int| x0 <= x < x1 ==> #[trigger] p[4 * (y * w + x) + c] == v,
    ensures
        row_sum(p, w, y, x0, x1, c) == v * (x1 - x0),
    decreases x1 - x0,
{
    if x0 < x1 {
        row_sum_of_constant(p, w, y, x0, x1 - 1, c, v);
        assert(p[4 * (y * w + (x1 - 1)) + c] == v);
        assert(v * (x1 - x0) == v * (x1 - 1 - x0) + v) by (nonlinear_arith);
    } else {
        assert(v * (x1 - x0) == 0) by (nonlinear_arith)
            requires
                x1 == x0,
        ;
    }
}

proof fn area_sum_of_constant(
    p: Seq<u8>,
    w: int,
    h: int,
    x0: int,
    x1: int,
    y0: int,
    y1: int,
    c: int,
    v: u8,
)
    requires
        0 <= x0 <= x1 <= w,
        0 <= y0 <= y1 <= h,
        0 <= c < 4,
        forall|i: int| 0 <= i < w * h ==> #[trigger] p[4 * i + c] == v,
    ensures
        area_sum(p, w, x0, x1, y0, y1, c) == v * ((x1 - x0) * (y1 - y0)),
    decreases y1 - y0,
{
    if y0 < y1 {
        area_sum_of_constant(p, w, h, x0, x1, y0, y1 - 1, c, v);
        assert forall|x: int| x0 <= x < x1 implies #[trigger] p[4 * ((y1 - 1) * w + x) + c]
            == v by {
            pixel_in_image(x, y1 - 1, w, h);
        }
        row_sum_of_constant(p, w, y1 - 1, x0, x1, c, v);
        assert(v * ((x1 - x0) * (y1 - y0)) == v * ((x1 - x0) * (y1 - 1 - y0)) + v * (x1 - x0))
            by (nonlinear_arith);
    } else {
        assert(v * ((x1 - x0) * (y1 - y0)) == 0) by (nonlinear_arith)
            requires
                y1 == y0,
        ;
    }
}

/// A box filter that reduces an image keeps a channel that is constant.
pub proof fn box_filter_keeps_constant_channels(
    p: Seq<u8>,
    w: int,
    h: int,
    nw: int,
    nh: int,
    dx: int,
    dy: int,
    c: int,
    v: u8,
)
    requires
        p.len() == 4 * (w * h),
        0 < nw <= w,
        0 < nh <= h,
        0 <= dx < nw,
        0 <= dy < nh,
        0 <= c < 4,
        forall|i: int| 0 <= i < w * h ==> #[trigger] p[4 * i + c] == v,
    ensures
        box_mean(p, w, h, nw, nh, dx, dy, c) == v,
{
    let (x0, x1) = (span_start(dx, w, nw), span_start(dx + 1, w, nw));
    let (y0, y1) = (span_start(dy, h, nh), span_start(dy + 1, h, nh));
    span_bounds(dx, w, nw);
    span_bounds(dy, h, nh);
    span_is_not_empty(dx, w, nw);
    span_is_not_empty(dy, h, nh);
    let n = (x1 - x0) * (y1 - y0);
    assert(n > 0) by (nonlinear_arith)
        requires
            n == (x1 - x0) * (y1 - y0),
            x1 - x0 > 0,
            y1 - y0 > 0,
    ;
    area_sum_of_constant(p, w, h, x0, x1, y0, y1, c, v);
    lemma_div_by_multiple(v as int, n);
}

/// Every destination row or column of a reduction has source rows or columns.
proof fn span_is_not_empty(d: int, from: int, to: int)
    requires
        0 <= d < to <= from,
    ensures
        span_start(d, from, to) < span_start(d + 1, from, to),
{
    let q = d * from / to;
    lemma_fundamental_div_mod(d * from, to);
    lemma_mod_bound(d * from, to);
    assert((d + 1) * from == d * from + from) by (nonlinear_arith);
    assert(to * (q + 1) == to * q + to) by (nonlinear_arith);
    assert((d + 1) * from >= to * (q + 1));
    lemma_div_is_ordered(to * (q + 1), (d + 1) * from, to);
    assert(to * (q + 1) == (q + 1) * to) by (nonlinear_arith);
    lemma_div_by_multiple(q + 1, to);
}

/// Splitting a normal image keeps red and green in the normals and blue in the
/// mask.
pub proof fn normal_split_keeps_all_colours(p: Seq<u8>, i: int)
    requires
        p.len() % 4 == 0,
        0 <= i < p.len() / 4,
    ensures
        with_reconstructed_z(p)[4 * i] == p[4 * i],
        with_reconstructed_z(p)[4 * i + 1] == p[4 * i + 1],
        with_reconstructed_z(p)[4 * i + 2] == z_byte(p[4 * i], p[4 * i + 1]),
        with_reconstructed_z(p)[4 * i + 3] == 255,
        blue_as_red(p)[4 * i] == p[4 * i + 2],
        blue_as_red(p)[4 * i + 1] == 0,
        blue_as_red(p)[4 * i + 2] == 0,
        blue_as_red(p)[4 * i + 3] == 255,
        with_reconstructed_z(p).len() == p.len(),
        blue_as_red(p).len() == p.len(),
{
}

/// One channel summed over those of the first `n` pixels that lie in columns `x0..x1` of
/// rows `y0..y1`.
pub open spec fn channel_total(
    p: Seq<u8>,
    w: int,
    x0: int,
    x1: int,
    y0: int,
    y1: int,
    c: int,
    n: int,
) -> int
    decreases n,
{
    if n <= 0 {
        0
    } else {
        let (x, y) = ((n - 1) % w, (n - 1) / w);
        channel_total(p, w, x0, x1, y0, y1, c, n - 1) + if x0 <= x < x1 && y0 <= y < y1 {
            p[4 * (n - 1) + c] as int
        } else {
            0
        }
    }
}

spec fn clipped(x: int, from: int, to: int) -> int {
    if x < from {
        from
    } else if x > to {
        to
    } else {
        x
    }
}

proof fn total_of_a_row(
    p: Seq<u8>,
    w: int,
    x0: int,
    x1: int,
    y0: int,
    y1: int,
    c: int,
    y: int,
    x: int,
)
    requires
        0 <= x0 <= x1 <= w,
        0 <= y,
        0 <= x <= w,
        0 < w,
    ensures
        channel_total(p, w, x0, x1, y0, y1, c, y * w + x) == channel_total(
            p,
            w,
            x0,
            x1,
            y0,
            y1,
            c,
            y * w,
        ) + if y0 <= y < y1 {
            row_sum(p, w, y, x0, clipped(x, x0, x1), c)
        } else {
            0
        },
    decreases x,
{
    if x > 0 {
        total_of_a_row(p, w, x0, x1, y0, y1, c, y, x - 1);
        let n = y * w + x;
        assert(0 <= y * w) by (nonlinear_arith)
            requires
                0 <= y,
                0 < w,
        ;
        lemma_fundamental_div_mod_converse(n - 1, w, y, x - 1);
        if x0 < x <= x1 {
            assert(clipped(x, x0, x1) - 1 == clipped(x - 1, x0, x1));
        } else {
            assert(clipped(x, x0, x1) == clipped(x - 1, x0, x1));
        }
    }
}

proof fn total_of_rows(p: Seq<u8>, w: int, x0: int, x1: int, y0: int, y1: int, c: int, y: int)
    requires
        0 <= x0 <= x1 <= w,
        0 <= y0 <= y1,
        0 <= y,
        0 < w,
    ensures
        channel_total(p, w, x0, x1, y0, y1, c, y * w) == area_sum(
            p,
            w,
            x0,
            x1,
            y0,
            clipped(y, y0, y1),
            c,
        ),
    decreases y,
{
    if y > 0 {
        total_of_rows(p, w, x0, x1, y0, y1, c, y - 1);
        total_of_a_row(p, w, x0, x1, y0, y1, c, y - 1, w);
        assert((y - 1) * w + w == y * w) by (nonlinear_arith);
        if y0 < y <= y1 {
            assert(clipped(y, y0, y1) - 1 == clipped(y - 1, y0, y1));
        } else {
            assert(clipped(y, y0, y1) == clipped(y - 1, y0, y1));
        }
    } else {
        assert(y * w == 0) by (nonlinear_arith)
            requires
                y == 0,
        ;
    }
}

/// Every byte of a reduced image is the mean of its channel over exactly the source pixels
/// that map to it: rows to rows from the top, columns to columns from the left.
pub proof fn box_filter_averages_what_maps_to_a_pixel(
    p: Seq<u8>,
    w: int,
    h: int,
    nw: int,
    nh: int,
    dx: int,
    dy: int,
    c: int,
)
    requires
        p.len() == 4 * (w * h),
        0 < nw <= w,
        0 < nh <= h,
        0 <= dx < nw,
        0 <= dy < nh,
        0 <= c < 4,
    ensures
        box_filtered(p, w, h, nw, nh).len() == 4 * (nw * nh),
        box_filtered(p, w, h, nw, nh)[4 * (dy * nw + dx) + c] == channel_total(
            p,
            w,
            dx * w / nw,
            (dx + 1) * w / nw,
            dy * h / nh,
            (dy + 1) * h / nh,
            c,
            w * h,
        ) / (((dx + 1) * w / nw - dx * w / nw) * ((dy + 1) * h / nh - dy * h / nh)),
{
    let (x0, x1) = (dx * w / nw, (dx + 1) * w / nw);
    let (y0, y1) = (dy * h / nh, (dy + 1) * h / nh);
    span_bounds(dx, w, nw);
    span_bounds(dy, h, nh);
    span_is_not_empty(dx, w, nw);
    span_is_not_empty(dy, h, nh);
    assert((x1 - x0) * (y1 - y0) > 0) by (nonlinear_arith)
        requires
            x1 - x0 > 0,
            y1 - y0 > 0,
    ;
    total_of_rows(p, w, x0, x1, y0, y1, c, h);
    assert(h * w == w * h) by (nonlinear_arith);
    mean_is_a_byte(p, w, x0, x1, y0, y1, c);
    pixel_in_image(dx, dy, nw, nh);
    let m = dy * nw + dx;
    lemma_fundamental_div_mod_converse(m, nw, dy, dx);
    assert((4 * m + c) / 4 == m && (4 * m + c) % 4 == c);
}

/// An image that is reduced to its own size is not changed.
#[verifier::rlimit(50)]
pub proof fn box_filter_to_the_same_size_changes_nothing(p: Seq<u8>, w: int, h: int)
    requires
        0 < w,
        0 < h,
        p.len() == 4 * (w * h),
    ensures
        box_filtered(p, w, h, w, h) == p,
{
    let r = box_filtered(p, w, h, w, h);
    assert forall|k: int| 0 <= k < p.len() implies r[k] == p[k] by {
        let (m, c) = (k / 4, k % 4);
        let (dx, dy) = (m % w, m / w);
        lemma_fundamental_div_mod(m, w);
        lemma_mod_bound(m, w);
        assert(0 <= dy < h) by {
            lemma_div_pos_is_pos(m, w);
            assert(w * h == h * w) by (nonlinear_arith);
            lemma_multiply_divide_lt(m, w, h);
        }
        assert(dy * w + dx == m) by {
            assert(w * dy == dy * w) by (nonlinear_arith);
        }
        lemma_div_by_multiple(dx, w);
        lemma_div_by_multiple(dx + 1, w);
        lemma_div_by_multiple(dy, h);
        lemma_div_by_multiple(dy + 1, h);
        assert((dx + 1 - dx) * (dy + 1 - dy) == 1) by (nonlinear_arith);
        assert(area_sum(p, w, dx, dx + 1, dy, dy + 1, c) == p[4 * (dy * w + dx) + c]) by {
            reveal_with_fuel(area_sum, 2);
            reveal_with_fuel(row_sum, 2);
        }
        assert(p[k] == p[4 * (dy * w + dx) + c]);
    }
    assert(r =~= p);
}

/// Red stays where it is, metallic moves from green to blue, and gloss in blue becomes
/// roughness in green: the two add up to full. No pixel moves.
pub proof fn gloss_and_roughness_add_up(p: Seq<u8>, i: int)
    requires
        p.len() % 4 == 0,
        0 <= i < p.len() / 4,
    ensures
        metallic_roughness(p).len() == p.len(),
        metallic_roughness(p)[4 * i] == p[4 * i],
        metallic_roughness(p)[4 * i + 1] + p[4 * i + 2] == 255,
        metallic_roughness(p)[4 * i + 2] == p[4 * i + 1],
        metallic_roughness(p)[4 * i + 3] == 255,
{
}

/// Making an image opaque keeps its colours, and is done once for all.
pub proof fn opacity_keeps_colours(p: Seq<u8>, i: int)
    requires
        p.len() % 4 == 0,
        0 <= i < p.len() / 4,
    ensures
        opaque(p).len() == p.len(),
        opaque(p).subrange(4 * i, 4 * i + 3) == p.subrange(4 * i, 4 * i + 3),
        opaque(p)[4 * i + 3] == 255,
        opaque(opaque(p)) == opaque(p),
{
    assert(opaque(p).subrange(4 * i, 4 * i + 3) =~= p.subrange(4 * i, 4 * i + 3));
    assert(opaque(opaque(p)) =~= opaque(p));
}

/// A zone belongs to the one colour that exceeds the other two and thirty; the three
/// colours are on a par.
pub proof fn zones_are_those_of_the_strongest_colour(r: u8, g: u8, b: u8)
    ensures
        zone(r, g, b) == 1 <==> (r > 30 && r > g && r > b),
        zone(r, g, b) == 1 <==> zone(g, r, b) == 2,
        zone(r, g, b) == 1 <==> zone(g, b, r) == 3,
        zone(r, g, b) == 2 <==> zone(r, b, g) == 3,
        zone(r, g, b) == 0 <==> zone(g, b, r) == 0,
        0 <= zone(r, g, b) <= 3,
{
}

/// Recolouring gives each pixel the whole colour of its own zone.
pub proof fn recolouring_paints_zones(p: Seq<u8>, colors: Seq<Seq<u8>>, i: int)
    requires
        p.len() % 4 == 0,
        0 <= i < p.len() / 4,
        colors.len() == 4,
        forall|k: int| 0 <= k < 4 ==> (#[trigger] colors[k]).len() == 4,
    ensures
        recoloured(p, colors).len() == p.len(),
        p[4 * i] > 30 && p[4 * i] > p[4 * i + 1] && p[4 * i] > p[4 * i + 2] ==> recoloured(
            p,
            colors,
        ).subrange(4 * i, 4 * i + 4) == colors[1],
        p[4 * i + 1] > 30 && p[4 * i + 1] > p[4 * i] && p[4 * i + 1] > p[4 * i + 2] ==> recoloured(
            p,
            colors,
        ).subrange(4 * i, 4 * i + 4) == colors[2],
        p[4 * i + 2] > 30 && p[4 * i + 2] > p[4 * i] && p[4 * i + 2] > p[4 * i + 1] ==> recoloured(
            p,
            colors,
        ).subrange(4 * i, 4 * i + 4) == colors[3],
        p[4 * i] <= 30 && p[4 * i + 1] <= 30 && p[4 * i + 2] <= 30 ==> recoloured(
            p,
            colors,
        ).subrange(4 * i, 4 * i + 4) == colors[0],
{
    let z = zone(p[4 * i], p[4 * i + 1], p[4 * i + 2]);
    let painted = recoloured(p, colors).subrange(4 * i, 4 * i + 4);
    assert(colors[z].len() == 4);
    assert forall|k: int| 0 <= k < 4 implies painted[k] == colors[z][k] by {
        assert((4 * i + k) % 4 == k);
    }
    assert(painted =~= colors[z]);
}

/// A reconstructed normal is a unit vector but for the step of a byte, and points up: with
/// `255` for one, the square of its Z component differs from what X and Y leave of the
/// square of one by less than the step allows.
pub proof fn reconstructed_normals_have_unit_length(x: u8, y: u8, k: int)
    requires
        encodes_z(x, y, k),
    ensures
        z_byte(x, y) == k,
        k >= 128,
        ({
            let (a, c, z) = (2 * x - 255, 2 * y - 255, 2 * k - 255);
            a * a + c * c <= 255 * 255 ==> {
                &&& a * a + c * c + z * z <= 255 * 255 + 2 * z - 1
                &&& a * a + c * c + z * z > 255 * 255 - 2 * z - 1
            }
        }),
        z_byte(y, x) == k,
{
    z_byte_is_unique(x, y, k);
    let z = 2 * k - 255;
    assert((2 * k - 256) * (2 * k - 256) == z * z - 2 * z + 1) by (nonlinear_arith)
        requires
            z == 2 * k - 255,
    ;
    assert((2 * k - 254) * (2 * k - 254) == z * z + 2 * z + 1) by (nonlinear_arith)
        requires
            z == 2 * k - 255,
    ;
    assert(encodes_z(y, x, k));
    z_byte_is_unique(y, x, k);
}

} // verus!
