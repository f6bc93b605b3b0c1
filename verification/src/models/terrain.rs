//! Reader for compiled height maps (`terrain.bin`).
//!
//! ```text
//! 0x00  u32  magic 'trb\0'
//! 0x04  u32  stored width  = chunks * edge
//! 0x08  u32  stored height = chunks * edge
//! 0x0c  u32  low half: chunks per axis, high half: poles per chunk edge
//! 0x10  two heights: global minimum and maximum
//! 0x18  chunks * chunks pairs of heights: minimum and maximum per chunk, row-major
//! ...   run-length encoded heights, exactly width * height of them
//! ```
//!
//! In the encoded stream a single word is a literal. Two equal words in a row are
//! an escape, and the word after them is the total number of repeats. One or two
//! trailing words are literals.
//!
//! The decoded heights form a mosaic of `edge * edge` blocks, one per chunk. Of
//! each block edge `edge - 3` poles are visible, from pole 1 on. The reader
//! resamples the mosaic to a uniform grid of `chunks * (edge - 3) + 1` poles per
//! axis. Heights are single-precision bit patterns (see [`crate::single`]).
use vstd::prelude::*;
use vstd::arithmetic::div_mod::*;
use vstd::arithmetic::mul::*;

use crate::bytes;
use crate::single;
use crate::text;

verus! {

/// Magic number: `trb\0`.
pub const TERRAIN_MAGIC: u32 = 0x0062_7274;

/// First visible pole of a block.
pub const POLE_ANCHOR: usize = 1;

/// Poles of a block edge that are not visible.
pub const BORDER_POLES: usize = 3;

/// Why a height map was refused.
#[derive(Debug, Clone, Copy, PartialEq, Eq, Structural)]
pub enum TerrainError {
    /// The file ends before the fixed part does.
    DataTooShort { need: u64, have: u64 },
    /// The file is no compiled height map.
    BadMagic { got: u32 },
    /// Stored size, chunk count and edge do not fit together.
    BadHeader { w: u32, h: u32, chunks: u16, edge: u16 },
    /// The stream does not decode to width * height values.
    SizeMismatch { decoded: u64, expected: u64 },
}

/// The message of an error.
pub open spec fn error_message(e: TerrainError) -> Seq<char> {
    match e {
        TerrainError::DataTooShort { need, have } => "data too short: need "@ + text::decimal(
            need as int,
        ) + " bytes, have "@ + text::decimal(have as int),
        TerrainError::BadMagic { got } => "bad magic: expected 0x"@ + text::zero_padded(
            text::hex(TERRAIN_MAGIC as int),
            8,
        ) + ", got 0x"@ + text::zero_padded(text::hex(got as int), 8),
        TerrainError::BadHeader { w, h, chunks, edge } => "inconsistent header: "@
            + text::decimal(w as int) + "x"@ + text::decimal(h as int) + " vs "@ + text::decimal(
            chunks as int,
        ) + " chunks of edge "@ + text::decimal(edge as int),
        TerrainError::SizeMismatch { decoded, expected } => "RLE decode produced "@
            + text::decimal(decoded as int) + " values, expected exactly "@ + text::decimal(
            expected as int,
        ) + " (width*height)"@,
    }
}

impl TerrainError {
    /// The message of an error.
    pub fn message(&self) -> (r: String)
        ensures
            r@ == error_message(*self),
    {
        match self {
            TerrainError::DataTooShort { need, have } => {
                let mut out = text::concat("data too short: need ", text::to_decimal(*need).as_str());
                out.append(" bytes, have ");
                out.append(text::to_decimal(*have).as_str());
                out
            },
            TerrainError::BadMagic { got } => {
                let expected = text::to_hex(TERRAIN_MAGIC as u64);
                let mut out = text::concat(
                    "bad magic: expected 0x",
                    text::pad_zeros(expected.as_str(), 8).as_str(),
                );
                out.append(", got 0x");
                out.append(text::pad_zeros(text::to_hex(*got as u64).as_str(), 8).as_str());
                out
            },
            TerrainError::BadHeader { w, h, chunks, edge } => {
                let mut out = text::concat(
                    "inconsistent header: ",
                    text::to_decimal(*w as u64).as_str(),
                );
                out.append("x");
                out.append(text::to_decimal(*h as u64).as_str());
                out.append(" vs ");
                out.append(text::to_decimal(*chunks as u64).as_str());
                out.append(" chunks of edge ");
                out.append(text::to_decimal(*edge as u64).as_str());
                out
            },
            TerrainError::SizeMismatch { decoded, expected } => {
                let mut out = text::concat(
                    "RLE decode produced ",
                    text::to_decimal(*decoded).as_str(),
                );
                out.append(" values, expected exactly ");
                out.append(text::to_decimal(*expected).as_str());
                out.append(" (width*height)");
                out
            },
        }
    }
}

/// A height map on a uniform grid of poles.
#[derive(Debug)]
pub struct Terrain {
    /// Poles per row.
    pub width: u32,
    /// Poles per column.
    pub height: u32,
    pub chunks_per_axis: u16,
    pub chunk_grid_edge: u16,
    /// Global extremes from the file header.
    pub min_height: u32,
    pub max_height: u32,
    /// Row-major heights; row 0 is the edge of least z.
    pub heightmap: Vec<u32>,
    /// Chunks whose decoded extremes disagree with the stored table.
    pub minmax_mismatches: u32,
}

pub open spec fn chunks_of(b: Seq<u8>) -> int {
    bytes::u32_at(b, 12) as int % 0x1_0000
}

pub open spec fn edge_of(b: Seq<u8>) -> int {
    bytes::u32_at(b, 12) as int / 0x1_0000
}

/// Poles per row of the mosaic.
pub open spec fn mosaic_width(b: Seq<u8>) -> int {
    chunks_of(b) * edge_of(b)
}

/// Offset of the encoded stream.
pub open spec fn stream_offset(b: Seq<u8>) -> int {
    0x18 + 8 * (chunks_of(b) * chunks_of(b))
}

/// The words of the encoded stream; up to three bytes at the end are left over.
pub open spec fn stream_words(b: Seq<u8>) -> Seq<u32> {
    Seq::new(
        ((b.len() - stream_offset(b)) / 4) as nat,
        |i: int| bytes::u32_at(b, stream_offset(b) + 4 * i),
    )
}

/// What the words from `i` on decode to.
pub open spec fn decoded_from(words: Seq<u32>, i: int) -> Seq<u32>
    decreases words.len() - i,
{
    if i + 2 < words.len() {
        if words[i + 1] == words[i] {
            Seq::new(words[i + 2] as nat, |k: int| words[i]) + decoded_from(words, i + 3)
        } else {
            seq![words[i]] + decoded_from(words, i + 1)
        }
    } else if i < words.len() {
        words.subrange(i, words.len() as int)
    } else {
        Seq::empty()
    }
}

/// What a stream decodes to.
pub open spec fn decoded(words: Seq<u32>) -> Seq<u32> {
    decoded_from(words, 0)
}

/// The length that decoding reports when `so_far` values precede word `i`. A run
/// that would overshoot the expected length by more than eight values ends it.
pub open spec fn reported_length(words: Seq<u32>, i: int, so_far: int, expected: int) -> int
    decreases words.len() - i,
{
    if i + 2 < words.len() {
        if words[i + 1] == words[i] {
            if so_far + words[i + 2] > expected + 8 {
                so_far + words[i + 2]
            } else {
                reported_length(words, i + 3, so_far + words[i + 2], expected)
            }
        } else {
            reported_length(words, i + 1, so_far + 1, expected)
        }
    } else if i < words.len() {
        so_far + (words.len() - i)
    } else {
        so_far
    }
}

/// The reported length is the expected one exactly when the decoded length is.
proof fn reported_length_agrees(words: Seq<u32>, i: int, so_far: int, expected: int)
    requires
        0 <= i <= words.len(),
        0 <= so_far,
    ensures
        reported_length(words, i, so_far, expected) == expected <==> so_far + decoded_from(
            words,
            i,
        ).len() == expected,
    decreases words.len() - i,
{
    if i + 2 < words.len() {
        if words[i + 1] == words[i] {
            if so_far + words[i + 2] <= expected + 8 {
                reported_length_agrees(words, i + 3, so_far + words[i + 2], expected);
            }
        } else {
            reported_length_agrees(words, i + 1, so_far + 1, expected);
        }
    }
}

/// A length as far as 64 bits can report it.
pub open spec fn clamped(len: int) -> u64 {
    if len > u64::MAX {
        u64::MAX
    } else {
        len as u64
    }
}

/// The first thing wrong with the fixed part of a file.
pub open spec fn header_error(b: Seq<u8>) -> Option<TerrainError> {
    if b.len() < 0x18 {
        Some(TerrainError::DataTooShort { need: 0x18, have: b.len() as u64 })
    } else if bytes::u32_at(b, 0) != TERRAIN_MAGIC {
        Some(TerrainError::BadMagic { got: bytes::u32_at(b, 0) })
    } else if bytes::u32_at(b, 4) != mosaic_width(b) || bytes::u32_at(b, 8) != mosaic_width(b)
        || edge_of(b) <= BORDER_POLES {
        Some(bad_header(b))
    } else if b.len() < stream_offset(b) {
        Some(TerrainError::DataTooShort { need: stream_offset(b) as u64, have: b.len() as u64 })
    } else {
        None
    }
}

pub open spec fn bad_header(b: Seq<u8>) -> TerrainError {
    TerrainError::BadHeader {
        w: bytes::u32_at(b, 4),
        h: bytes::u32_at(b, 8),
        chunks: chunks_of(b) as u16,
        edge: edge_of(b) as u16,
    }
}

/// The first thing wrong with a file: its fixed part, the length of its stream,
/// or a grid without chunks, which has no poles.
pub open spec fn terrain_error(b: Seq<u8>) -> Option<TerrainError> {
    let expected = mosaic_width(b) * mosaic_width(b);
    if header_error(b) is Some {
        header_error(b)
    } else if decoded(stream_words(b)).len() != expected {
        Some(
            TerrainError::SizeMismatch {
                decoded: clamped(reported_length(stream_words(b), 0, 0, expected)),
                expected: expected as u64,
            },
        )
    } else if chunks_of(b) == 0 {
        Some(bad_header(b))
    } else {
        None
    }
}

/// The heights of the block at column `bx` and row `bz` of the chunk grid.
pub open spec fn block(mosaic: Seq<u32>, chunks: int, edge: int, bx: int, bz: int) -> Seq<u32> {
    Seq::new(
        (edge * edge) as nat,
        |k: int| mosaic[(bz * edge + k / edge) * (chunks * edge) + (bx * edge + k % edge)],
    )
}

/// Whether the stored extremes of chunk `c` (row-major) disagree with its block.
pub open spec fn chunk_mismatch(b: Seq<u8>, mosaic: Seq<u32>, c: int) -> bool {
    let heights = block(mosaic, chunks_of(b), edge_of(b), c % chunks_of(b), c / chunks_of(b));
    ||| single::differ_noticeably(single::lowest(heights), bytes::u32_at(b, 0x18 + 8 * c))
    ||| single::differ_noticeably(single::highest(heights), bytes::u32_at(b, 0x18 + 8 * c + 4))
}

/// How many of the first `n` chunks have extremes that disagree with the table.
pub open spec fn mismatches(b: Seq<u8>, mosaic: Seq<u32>, n: int) -> int
    decreases n,
{
    if n <= 0 {
        0
    } else {
        mismatches(b, mosaic, n - 1) + if chunk_mismatch(b, mosaic, n - 1) {
            1int
        } else {
            0int
        }
    }
}

/// The chunk that supplies pole `g` of an axis.
pub open spec fn chunk_of_pole(g: int, chunks: int, edge: int) -> int {
    if g / (edge - 3) < chunks {
        g / (edge - 3)
    } else {
        chunks - 1
    }
}

/// The mosaic row or column that supplies pole `g` of an axis.
pub open spec fn source_pole(g: int, chunks: int, edge: int) -> int {
    let c = chunk_of_pole(g, chunks, edge);
    c * edge + (g - c * (edge - 3)) + 1
}

/// Poles per axis of the uniform grid.
pub open spec fn poles_per_axis(chunks: int, edge: int) -> int {
    chunks * (edge - 3) + 1
}

/// The uniform grid that a mosaic stands for.
pub open spec fn resampled(mosaic: Seq<u32>, chunks: int, edge: int) -> Seq<u32> {
    let n = poles_per_axis(chunks, edge);
    Seq::new(
        (n * n) as nat,
        |k: int|
            mosaic[source_pole(k / n, chunks, edge) * (chunks * edge) + source_pole(
                k % n,
                chunks,
                edge,
            )],
    )
}

/// Every pole of the grid is supplied by a visible pole of its chunk's block:
/// poles `1 ..= edge - 2`, the last one only at the far edge of the grid.
pub proof fn source_poles_are_visible(g: int, chunks: int, edge: int)
    requires
        0 <= g < poles_per_axis(chunks, edge),
        chunks > 0,
        edge > 3,
    ensures
        0 <= chunk_of_pole(g, chunks, edge) < chunks,
        1 <= source_pole(g, chunks, edge) - chunk_of_pole(g, chunks, edge) * edge <= edge - 2,
        source_pole(g, chunks, edge) - chunk_of_pole(g, chunks, edge) * edge == edge - 2 ==> g
            == chunks * (edge - 3),
        0 <= source_pole(g, chunks, edge) < chunks * edge,
{
    let vis = edge - 3;
    let c = chunk_of_pole(g, chunks, edge);
    lemma_fundamental_div_mod(g, vis);
    lemma_mod_bound(g, vis);
    let q = g / vis;
    assert(q >= 0) by {
        lemma_div_pos_is_pos(g, vis);
    }
    if q >= chunks {
        assert(vis * q >= vis * chunks) by (nonlinear_arith)
            requires
                q >= chunks,
                vis > 0,
        ;
        assert(vis * chunks == chunks * vis) by (nonlinear_arith);
        assert(g == chunks * vis);
        assert((chunks - 1) * vis == chunks * vis - vis) by (nonlinear_arith);
    } else {
        assert(q * vis == vis * q) by (nonlinear_arith);
    }
    assert(c * edge <= (chunks - 1) * edge) by (nonlinear_arith)
        requires
            c <= chunks - 1,
            edge > 0,
    ;
    assert((chunks - 1) * edge == chunks * edge - edge) by (nonlinear_arith);
    assert(0 <= c * edge) by (nonlinear_arith)
        requires
            0 <= c,
            edge > 0,
    ;
}

/// Neighbouring poles of the grid are neighbours in the mosaic, or lie on the two
/// sides of a chunk seam, where the mosaic skips its three border poles.
pub proof fn resampling_skips_only_borders(g: int, chunks: int, edge: int)
    requires
        0 <= g,
        g + 1 < poles_per_axis(chunks, edge),
        chunks > 0,
        edge > 3,
    ensures
        chunk_of_pole(g + 1, chunks, edge) == chunk_of_pole(g, chunks, edge) ==> source_pole(
            g + 1,
            chunks,
            edge,
        ) == source_pole(g, chunks, edge) + 1,
        chunk_of_pole(g + 1, chunks, edge) != chunk_of_pole(g, chunks, edge) ==> source_pole(
            g + 1,
            chunks,
            edge,
        ) == source_pole(g, chunks, edge) + 1 + BORDER_POLES,
{
    let vis = edge - 3;
    source_poles_are_visible(g, chunks, edge);
    source_poles_are_visible(g + 1, chunks, edge);
    lemma_fundamental_div_mod(g, vis);
    lemma_fundamental_div_mod(g + 1, vis);
    lemma_mod_bound(g, vis);
    lemma_mod_bound(g + 1, vis);
    let (q, r) = (g / vis, g % vis);
    let (q1, r1) = (( g + 1) / vis, (g + 1) % vis);
    assert(q1 == q || q1 == q + 1) by (nonlinear_arith)
        requires
            g == vis * q + r,
            g + 1 == vis * q1 + r1,
            0 <= r < vis,
            0 <= r1 < vis,
    ;
    let (c, c1) = (chunk_of_pole(g, chunks, edge), chunk_of_pole(g + 1, chunks, edge));
    if c1 != c {
        assert(q < chunks && c1 == c + 1);
        assert((c + 1) * edge == c * edge + edge) by (nonlinear_arith);
        assert((c + 1) * vis == c * vis + vis) by (nonlinear_arith);
    }
}

/// Appends `count` copies of `v`.
fn push_run(out: &mut Vec<u32>, v: u32, count: u32)
    ensures
        final(out)@ == old(out)@ + Seq::new(count as nat, |k: int| v),
{
    let ghost before = out@;
    let mut k: u32 = 0;
    assert(before + Seq::new(0, |k: int| v) =~= before);
    while k < count
        invariant
            k <= count,
            out@ == before + Seq::new(k as nat, |k: int| v),
        decreases count - k,
    {
        let ghost mid = out@;
        out.push(v);
        k += 1;
        assert(out@ =~= before + Seq::new(k as nat, |k: int| v));
    }
}

/// Decodes the stream that starts at `at` and holds `n` words. On failure gives
/// the length to report.
fn decode_stream(b: &[u8], at: usize, n: usize, expected: u64) -> (r: Result<Vec<u32>, u64>)
    requires
        at + 4 * n <= b.len(),
        expected <= 0xFFFF_FFFF_0000_0000,
    ensures
        ({
            let words = Seq::new(n as nat, |i: int| bytes::u32_at(b@, at + 4 * i));
            match r {
                Ok(out) => out@ == decoded(words) && out@.len() == expected,
                Err(len) => decoded(words).len() != expected && len == clamped(
                    reported_length(words, 0, 0, expected as int),
                ),
            }
        }),
{
    let ghost words = Seq::new(n as nat, |i: int| bytes::u32_at(b@, at + 4 * i));
    proof {
        reported_length_agrees(words, 0, 0, expected as int);
    }
    let mut out: Vec<u32> = Vec::new();
    let mut i: usize = 0;
    assert(out@ + decoded_from(words, 0) =~= decoded_from(words, 0));
    while n >= 2 && i < n - 2
        invariant
            i <= n,
            at + 4 * n <= b.len(),
            expected <= 0xFFFF_FFFF_0000_0000,
            words == Seq::new(n as nat, |i: int| bytes::u32_at(b@, at + 4 * i)),
            out@ + decoded_from(words, i as int) == decoded(words),
            reported_length(words, i as int, out@.len() as int, expected as int)
                == reported_length(words, 0, 0, expected as int),
            reported_length(words, 0, 0, expected as int) == expected <==> decoded(words).len()
                == expected,
            out@.len() <= expected + 8 + i,
        decreases n - i,
    {
        let v: u32 = bytes::get_u32(b, at + 4 * i);
        assert(v == words[i as int]);
        let w: u32 = bytes::get_u32(b, at + 4 * (i + 1));
        assert(w == words[i + 1]);
        let ghost before = out@;
        if w == v {
            let count: u32 = bytes::get_u32(b, at + 4 * (i + 2));
            assert(count == words[i + 2]);
            if out.len() as u128 + count as u128 > expected as u128 + 8 {
                return Err((out.len() as u64).saturating_add(count as u64));
            }
            push_run(&mut out, v, count);
            assert(out@ + decoded_from(words, i + 3) =~= before + (Seq::new(
                count as nat,
                |k: int| words[i as int],
            ) + decoded_from(words, i + 3)));
            i += 3;
        } else {
            out.push(v);
            assert(out@ + decoded_from(words, i + 1) =~= before + (seq![words[i as int]]
                + decoded_from(words, i + 1)));
            i += 1;
        }
    }
    let ghost stop = i as int;
    let ghost kept = out@;
    assert(stop < n ==> decoded_from(words, stop) == words.subrange(stop, n as int));
    assert(out@ + words.subrange(stop, stop) =~= kept);
    while i < n
        invariant
            stop <= i <= n,
            at + 4 * n <= b.len(),
            words == Seq::new(n as nat, |i: int| bytes::u32_at(b@, at + 4 * i)),
            0 <= stop,
            out@ == kept + words.subrange(stop, i as int),
        decreases n - i,
    {
        let v: u32 = bytes::get_u32(b, at + 4 * i);
        assert(v == words[i as int]);
        out.push(v);
        i += 1;
        assert(out@ =~= kept + words.subrange(stop, i as int));
    }
    assert(out@ =~= decoded(words));
    if out.len() as u64 != expected {
        return Err(out.len() as u64);
    }
    Ok(out)
}

/// Whether the stored extremes of one chunk disagree with its block.
fn check_chunk(b: &[u8], mosaic: &Vec<u32>, chunks: usize, edge: usize, c: usize) -> (r: bool)
    requires
        b.len() >= stream_offset(b@),
        0 < chunks < 0x1_0000,
        3 < edge < 0x1_0000,
        chunks == chunks_of(b@),
        edge == edge_of(b@),
        mosaic.len() == (chunks * edge) * (chunks * edge),
        c < chunks * chunks,
    ensures
        r == chunk_mismatch(b@, mosaic@, c as int),
{
    let bx: usize = c % chunks;
    let bz: usize = c / chunks;
    let width: usize = mul_small(chunks, edge);
    proof {
        lemma_fundamental_div_mod(c as int, chunks as int);
        lemma_mod_bound(c as int, chunks as int);
        assert(bz < chunks) by (nonlinear_arith)
            requires
                c < chunks * chunks,
                c == chunks * bz + bx,
                bx >= 0,
                chunks > 0,
        ;
    }
    let ghost heights = block(mosaic@, chunks as int, edge as int, bx as int, bz as int);
    let mut lo: u32 = single::INFINITY_BITS;
    let mut hi: u32 = single::NEG_INFINITY_BITS;
    let mut pz: usize = 0;
    assert(heights.take(0) =~= Seq::empty());
    while pz < edge
        invariant
            pz <= edge,
            0 < chunks < 0x1_0000,
            3 < edge < 0x1_0000,
            bx < chunks,
            bz < chunks,
            width == chunks * edge,
            mosaic.len() == width * width,
            heights == block(mosaic@, chunks as int, edge as int, bx as int, bz as int),
            lo == single::lowest(heights.take(pz * edge)),
            hi == single::highest(heights.take(pz * edge)),
        decreases edge - pz,
    {
        let mut px: usize = 0;
        while px < edge
            invariant
                pz < edge,
                px <= edge,
                0 < chunks < 0x1_0000,
                3 < edge < 0x1_0000,
                bx < chunks,
                bz < chunks,
                width == chunks * edge,
                mosaic.len() == width * width,
                heights == block(mosaic@, chunks as int, edge as int, bx as int, bz as int),
                lo == single::lowest(heights.take(pz * edge + px)),
                hi == single::highest(heights.take(pz * edge + px)),
            decreases edge - px,
        {
            let ghost k = pz * edge + px;
            proof {
                lemma_fundamental_div_mod_converse(k, edge as int, pz as int, px as int);
                assert(k < edge * edge) by (nonlinear_arith)
                    requires
                        k == pz * edge + px,
                        pz <= edge - 1,
                        px < edge,
                ;
                assert(0 <= k) by (nonlinear_arith)
                    requires
                        k == pz * edge + px,
                ;
                cell_in_mosaic(bz as int, pz as int, chunks as int, edge as int);
                cell_in_mosaic(bx as int, px as int, chunks as int, edge as int);
            }
            let row: usize = bz * edge + pz;
            let col: usize = bx * edge + px;
            proof {
                index_in_square(row as int, col as int, width as int);
            }
            let h: u32 = mosaic[row * width + col];
            proof {
                assert(h == heights[k]);
                assert(heights.take(k + 1).drop_last() =~= heights.take(k));
                assert(heights.take(k + 1).last() == heights[k]);
            }
            lo = single::min_bits(lo, h);
            hi = single::max_bits(hi, h);
            px += 1;
        }
        assert(pz * edge + edge == (pz + 1) * edge) by (nonlinear_arith);
        pz += 1;
    }
    assert(heights.take(edge * edge) =~= heights);
    let at: usize = 0x18 + 8 * c;
    single::exceeds_milli(lo, bytes::get_u32(b, at)) || single::exceeds_milli(
        hi,
        bytes::get_u32(b, at + 4),
    )
}

proof fn cell_in_mosaic(c: int, p: int, chunks: int, edge: int)
    requires
        0 <= c < chunks,
        0 <= p < edge,
    ensures
        0 <= c * edge,
        0 <= c * edge + p < chunks * edge,
{
    assert(0 <= c * edge && c * edge + edge <= chunks * edge) by (nonlinear_arith)
        requires
            0 <= c,
            c + 1 <= chunks,
            0 < edge,
    ;
}

proof fn index_in_square(row: int, col: int, width: int)
    requires
        0 <= row < width,
        0 <= col < width,
    ensures
        0 <= row * width,
        0 <= row * width + col < width * width,
{
    assert(0 <= row * width && row * width + width <= width * width) by (nonlinear_arith)
        requires
            0 <= row,
            row + 1 <= width,
            0 < width,
    ;
}

/// The product of two small numbers.
fn mul_small(a: usize, b: usize) -> (r: usize)
    requires
        a < 0x1_0000,
        b < 0x1_0000,
    ensures
        r == a * b,
        r <= 0xFFFE_0001,
{
    assert(a * b <= 0xFFFE_0001) by (nonlinear_arith)
        requires
            a <= 0xFFFF,
            b <= 0xFFFF,
    ;
    a * b
}

/// The mosaic row or column that supplies pole `g` of an axis.
fn source_index(g: usize, chunks: usize, edge: usize) -> (r: usize)
    requires
        0 < chunks < 0x1_0000,
        3 < edge < 0x1_0000,
        g < poles_per_axis(chunks as int, edge as int),
    ensures
        r == source_pole(g as int, chunks as int, edge as int),
        r < chunks * edge,
{
    let vis: usize = edge - BORDER_POLES;
    let q: usize = g / vis;
    let c: usize = if q < chunks {
        q
    } else {
        chunks - 1
    };
    proof {
        source_poles_are_visible(g as int, chunks as int, edge as int);
        assert(c * vis == c * edge - 3 * c) by (nonlinear_arith)
            requires
                vis == edge - 3,
        ;
        assert(chunks * edge <= 0xFFFF * 0xFFFF) by (nonlinear_arith)
            requires
                chunks <= 0xFFFF,
                edge <= 0xFFFF,
        ;
        cell_in_mosaic(c as int, 0, chunks as int, edge as int);
    }
    c * edge + (g - c * vis) + POLE_ANCHOR
}

/// Resamples a mosaic to the uniform grid.
fn resample(mosaic: &Vec<u32>, chunks: usize, edge: usize) -> (r: Vec<u32>)
    requires
        0 < chunks < 0x1_0000,
        3 < edge < 0x1_0000,
        mosaic.len() == (chunks * edge) * (chunks * edge),
    ensures
        r@ == resampled(mosaic@, chunks as int, edge as int),
{
    let width: usize = mul_small(chunks, edge);
    let n: usize = mul_small(chunks, edge - BORDER_POLES) + 1;
    proof {
        assert(chunks * (edge - 3) + 1 <= width) by (nonlinear_arith)
            requires
                width == chunks * edge,
                chunks > 0,
        ;
        assert(n * n <= width * width) by (nonlinear_arith)
            requires
                n <= width,
        ;
    }
    let mut out: Vec<u32> = Vec::new();
    let ghost full = resampled(mosaic@, chunks as int, edge as int);
    let mut gz: usize = 0;
    assert(full.take(0) =~= out@);
    while gz < n
        invariant
            gz <= n,
            0 < chunks < 0x1_0000,
            3 < edge < 0x1_0000,
            width == chunks * edge,
            n == poles_per_axis(chunks as int, edge as int),
            mosaic.len() == width * width,
            full == resampled(mosaic@, chunks as int, edge as int),
            out@ == full.take(gz * n),
        decreases n - gz,
    {
        let row: usize = source_index(gz, chunks, edge);
        let mut gx: usize = 0;
        while gx < n
            invariant
                gz < n,
                gx <= n,
                0 < chunks < 0x1_0000,
                3 < edge < 0x1_0000,
                width == chunks * edge,
                n == poles_per_axis(chunks as int, edge as int),
                mosaic.len() == width * width,
                row == source_pole(gz as int, chunks as int, edge as int),
                row < width,
                full == resampled(mosaic@, chunks as int, edge as int),
                out@ == full.take(gz * n + gx),
            decreases n - gx,
        {
            let col: usize = source_index(gx, chunks, edge);
            let ghost k = gz * n + gx;
            proof {
                index_in_square(row as int, col as int, width as int);
                index_in_square(gz as int, gx as int, n as int);
                lemma_fundamental_div_mod_converse(k, n as int, gz as int, gx as int);
            }
            out.push(mosaic[row * width + col]);
            assert(out@ =~= full.take(k + 1));
            gx += 1;
        }
        assert(gz * n + n == (gz + 1) * n) by (nonlinear_arith);
        gz += 1;
    }
    assert(full.take(n * n) =~= full);
    out
}

/// Checks the fixed part of a file and gives chunks per axis and poles per edge.
fn read_header(b: &[u8]) -> (r: Result<(usize, usize), TerrainError>)
    ensures
        match r {
            Err(e) => header_error(b@) == Some(e),
            Ok((chunks, edge)) => {
                &&& header_error(b@) is None
                &&& chunks == chunks_of(b@)
                &&& edge == edge_of(b@)
                &&& b.len() >= stream_offset(b@)
                &&& edge > 3
            },
        },
{
    let have: usize = b.len();
    if have < 0x18 {
        return Err(TerrainError::DataTooShort { need: 0x18, have: have as u64 });
    }
    let magic: u32 = bytes::get_u32(b, 0);
    if magic != TERRAIN_MAGIC {
        return Err(TerrainError::BadMagic { got: magic });
    }
    let w: u32 = bytes::get_u32(b, 4);
    let h: u32 = bytes::get_u32(b, 8);
    let packed: u32 = bytes::get_u32(b, 12);
    let chunks: usize = (packed % 0x1_0000) as usize;
    let edge: usize = (packed / 0x1_0000) as usize;
    let width: usize = mul_small(chunks, edge);
    if w as usize != width || h as usize != width || edge <= BORDER_POLES {
        return Err(TerrainError::BadHeader { w, h, chunks: chunks as u16, edge: edge as u16 });
    }
    let data_off: u64 = 0x18 + 8 * (mul_small(chunks, chunks) as u64);
    if (have as u64) < data_off {
        return Err(TerrainError::DataTooShort { need: data_off, have: have as u64 });
    }
    Ok((chunks, edge))
}

/// Decodes the stream of a file whose fixed part is in order.
fn read_mosaic(b: &[u8], chunks: usize, edge: usize) -> (r: Result<Vec<u32>, TerrainError>)
    requires
        header_error(b@) is None,
        chunks == chunks_of(b@),
        edge == edge_of(b@),
        b.len() >= stream_offset(b@),
    ensures
        match r {
            Err(e) => decoded(stream_words(b@)).len() != mosaic_width(b@) * mosaic_width(b@)
                && terrain_error(b@) == Some(e),
            Ok(mosaic) => mosaic@ == decoded(stream_words(b@)) && mosaic@.len() == mosaic_width(b@)
                * mosaic_width(b@),
        },
{
    let width: usize = mul_small(chunks, edge);
    let at: usize = 0x18 + 8 * mul_small(chunks, chunks);
    let n: usize = (b.len() - at) / 4;
    proof {
        assert(width * width <= 0xFFFE_0001 * 0xFFFE_0001) by (nonlinear_arith)
            requires
                width <= 0xFFFE_0001,
        ;
    }
    let expected: u64 = width as u64 * width as u64;
    assert(stream_words(b@) =~= Seq::new(n as nat, |i: int| bytes::u32_at(b@, at + 4 * i)));
    match decode_stream(b, at, n, expected) {
        Ok(mosaic) => Ok(mosaic),
        Err(decoded) => Err(TerrainError::SizeMismatch { decoded, expected }),
    }
}

/// Counts the chunks whose stored extremes disagree with their blocks.
fn count_mismatches(b: &[u8], mosaic: &Vec<u32>, chunks: usize, edge: usize) -> (r: u32)
    requires
        b.len() >= stream_offset(b@),
        0 < chunks < 0x1_0000,
        3 < edge < 0x1_0000,
        chunks == chunks_of(b@),
        edge == edge_of(b@),
        mosaic.len() == (chunks * edge) * (chunks * edge),
    ensures
        r == mismatches(b@, mosaic@, chunks * chunks),
{
    let n_chunks: usize = mul_small(chunks, chunks);
    let mut count: u32 = 0;
    let mut c: usize = 0;
    while c < n_chunks
        invariant
            c <= n_chunks,
            n_chunks == chunks * chunks,
            n_chunks <= 0xFFFE_0001,
            b.len() >= stream_offset(b@),
            0 < chunks < 0x1_0000,
            3 < edge < 0x1_0000,
            chunks == chunks_of(b@),
            edge == edge_of(b@),
            mosaic.len() == (chunks * edge) * (chunks * edge),
            count == mismatches(b@, mosaic@, c as int),
            count <= c,
        decreases n_chunks - c,
    {
        if check_chunk(b, mosaic, chunks, edge, c) {
            count += 1;
        }
        c += 1;
    }
    count
}

/// Whether this is the height map of a file.
pub open spec fn contents_stand(t: Terrain, b: Seq<u8>) -> bool {
    let mosaic = decoded(stream_words(b));
    let chunks = chunks_of(b);
    let edge = edge_of(b);
    &&& t.width == poles_per_axis(chunks, edge)
    &&& t.height == poles_per_axis(chunks, edge)
    &&& t.chunks_per_axis == chunks
    &&& t.chunk_grid_edge == edge
    &&& t.min_height == bytes::u32_at(b, 16)
    &&& t.max_height == bytes::u32_at(b, 20)
    &&& t.heightmap@ == resampled(mosaic, chunks, edge)
    &&& t.minmax_mismatches == mismatches(b, mosaic, chunks * chunks)
}

/// Reads a compiled height map.
pub fn parse_terrain(file_data: &[u8]) -> (r: Result<Terrain, TerrainError>)
    ensures
        match r {
            Err(e) => terrain_error(file_data@) == Some(e),
            Ok(t) => {
                &&& terrain_error(file_data@) is None
                &&& contents_stand(t, file_data@)
            },
        },
{
    let (chunks, edge): (usize, usize) = match read_header(file_data) {
        Ok(header) => header,
        Err(e) => {
            return Err(e);
        },
    };
    let mosaic: Vec<u32> = match read_mosaic(file_data, chunks, edge) {
        Ok(mosaic) => mosaic,
        Err(e) => {
            return Err(e);
        },
    };
    if chunks == 0 {
        return Err(
            TerrainError::BadHeader {
                w: bytes::get_u32(file_data, 4),
                h: bytes::get_u32(file_data, 8),
                chunks: 0,
                edge: edge as u16,
            },
        );
    }
    let minmax_mismatches: u32 = count_mismatches(file_data, &mosaic, chunks, edge);
    let poles: usize = mul_small(chunks, edge - BORDER_POLES) + 1;
    let heightmap: Vec<u32> = resample(&mosaic, chunks, edge);
    Ok(
        Terrain {
            width: poles as u32,
            height: poles as u32,
            chunks_per_axis: chunks as u16,
            chunk_grid_edge: edge as u16,
            min_height: bytes::get_u32(file_data, 16),
            max_height: bytes::get_u32(file_data, 20),
            heightmap,
            minmax_mismatches,
        },
    )
}

/// How many values at the start of `v` equal `x`.
pub open spec fn run_of(v: Seq<u32>, x: u32) -> int
    decreases v.len(),
{
    if v.len() > 0 && v[0] == x {
        1 + run_of(v.skip(1), x)
    } else {
        0
    }
}

proof fn run_of_is_maximal(v: Seq<u32>, x: u32)
    ensures
        0 <= run_of(v, x) <= v.len(),
        v.take(run_of(v, x)) == Seq::new(run_of(v, x) as nat, |k: int| x),
        run_of(v, x) < v.len() ==> v[run_of(v, x)] != x,
    decreases v.len(),
{
    if v.len() > 0 && v[0] == x {
        let rest = v.skip(1);
        run_of_is_maximal(rest, x);
        let n = run_of(rest, x);
        assert(v.take(n + 1) =~= seq![x] + rest.take(n));
        assert(v.take(n + 1) =~= Seq::new((n + 1) as nat, |k: int| x));
    } else {
        assert(v.take(0) =~= Seq::new(0, |k: int| x));
    }
}

/// The stream that writes every maximal run of two or more values as an escape
/// and every other value as a literal.
pub open spec fn encoded(v: Seq<u32>) -> Seq<u32>
    decreases v.len(),
    via encoded_decreases
{
    if v.len() == 0 {
        Seq::empty()
    } else if run_of(v, v[0]) >= 2 {
        seq![v[0], v[0], run_of(v, v[0]) as u32] + encoded(v.skip(run_of(v, v[0])))
    } else {
        seq![v[0]] + encoded(v.skip(1))
    }
}

#[via_fn]
proof fn encoded_decreases(v: Seq<u32>) {
    if v.len() > 0 {
        run_of_is_maximal(v, v[0]);
    }
}

proof fn decoding_is_local(head: Seq<u32>, tail: Seq<u32>, i: int)
    requires
        0 <= i <= tail.len(),
    ensures
        decoded_from(head + tail, head.len() + i) == decoded_from(tail, i),
    decreases tail.len() - i,
{
    let all = head + tail;
    let j = head.len() + i;
    if i + 2 < tail.len() {
        assert(all[j] == tail[i] && all[j + 1] == tail[i + 1] && all[j + 2] == tail[i + 2]);
        if tail[i + 1] == tail[i] {
            decoding_is_local(head, tail, i + 3);
            assert(Seq::new(all[j + 2] as nat, |k: int| all[j]) =~= Seq::new(
                tail[i + 2] as nat,
                |k: int| tail[i],
            ));
        } else {
            decoding_is_local(head, tail, i + 1);
        }
    } else if i < tail.len() {
        assert(all.subrange(j, all.len() as int) =~= tail.subrange(i, tail.len() as int));
    }
}

proof fn encoding_starts_with_the_first_value(v: Seq<u32>)
    ensures
        v.len() > 0 ==> encoded(v).len() > 0 && encoded(v)[0] == v[0],
        v.len() == 0 ==> encoded(v).len() == 0,
        encoded(v).len() == 1 ==> v == encoded(v),
{
    if v.len() > 0 {
        run_of_is_maximal(v, v[0]);
        if run_of(v, v[0]) < 2 && encoded(v).len() == 1 {
            assert(encoded(v.skip(1)).len() == 0);
            if v.skip(1).len() > 0 {
                encoding_starts_with_the_first_value_nonempty(v.skip(1));
            }
            assert(v =~= encoded(v));
        }
    }
}

proof fn encoding_starts_with_the_first_value_nonempty(v: Seq<u32>)
    requires
        v.len() > 0,
    ensures
        encoded(v).len() > 0,
{
}

/// Decoding an encoded height field gives the field back.
pub proof fn decoding_undoes_encoding(v: Seq<u32>)
    requires
        v.len() <= u32::MAX,
    ensures
        decoded(encoded(v)) == v,
    decreases v.len(),
{
    let words = encoded(v);
    if v.len() == 0 {
        assert(decoded(words) =~= v);
    } else {
        let n = run_of(v, v[0]);
        run_of_is_maximal(v, v[0]);
        if n >= 2 {
            let tail = encoded(v.skip(n));
            let head = seq![v[0], v[0], n as u32];
            decoding_undoes_encoding(v.skip(n));
            decoding_is_local(head, tail, 0);
            assert(decoded(words) =~= Seq::new(n as nat, |k: int| v[0]) + v.skip(n));
            assert(v =~= v.take(n) + v.skip(n));
        } else {
            assert(v.skip(1).len() > 0 ==> v.skip(1)[0] != v[0]) by {
                assert(n == 1 + run_of(v.skip(1), v[0]));
                assert(run_of(v.skip(1), v[0]) >= 0) by {
                    run_of_is_maximal(v.skip(1), v[0]);
                }
            }
            let rest = v.skip(1);
            let tail = encoded(rest);
            let head = seq![v[0]];
            encoding_starts_with_the_first_value(rest);
            decoding_undoes_encoding(rest);
            decoding_is_local(head, tail, 0);
            assert(words =~= head + tail);
            assert(v =~= head + rest);
            if words.len() > 2 {
                assert(words[1] == tail[0]);
                assert(rest.len() > 0);
                assert(decoded(words) =~= head + decoded(tail));
            } else {
                assert(words.subrange(0, words.len() as int) =~= words);
                assert(tail =~= rest);
            }
        }
    }
}

} // verus!
