//! What `terrain.bin` looks like to those who write it, and that the reader in `terrain`
//! gives back what was written.
use vstd::prelude::*;
use vstd::arithmetic::div_mod::*;

use crate::bytes;
use crate::models::layout;
use crate::models::terrain;
use crate::models::terrain::Terrain;
use crate::single;

verus! {

/// A height map file: magic, stored width and height, chunks per axis, poles per chunk
/// edge, the lowest and the highest height, those of every chunk, and the heights.
pub open spec fn file(
    chunks: u16,
    edge: u16,
    min: u32,
    max: u32,
    table: Seq<u32>,
    words: Seq<u32>,
) -> Seq<Seq<u8>> {
    seq![
        layout::le32(0x0062_7274),
        layout::le32((chunks * edge) as u32),
        layout::le32((chunks * edge) as u32),
        layout::le16(chunks),
        layout::le16(edge),
        layout::le32(min),
        layout::le32(max),
        layout::le32s(table),
        layout::le32s(words),
    ]
}

/// The heights of all chunks as they are stored: chunk rows from the one of least z on, in
/// each of them pole rows, in each of these one row of every chunk.
pub open spec fn mosaic_of(blocks: Seq<Seq<u32>>, chunks: int, edge: int) -> Seq<u32> {
    Seq::new(
        ((chunks * edge) * (chunks * edge)) as nat,
        |k: int|
            {
                let (row, col) = (k / (chunks * edge), k % (chunks * edge));
                blocks[row / edge * chunks + col / edge][row % edge * edge + col % edge]
            },
    )
}

/// Whether there are the heights of `chunks * chunks` chunks.
pub open spec fn are_blocks(blocks: Seq<Seq<u32>>, chunks: int, edge: int) -> bool {
    &&& 0 < chunks
    &&& 3 < edge
    &&& blocks.len() == chunks * chunks
    &&& forall|c: int| 0 <= c < blocks.len() ==> (#[trigger] blocks[c]).len() == edge * edge
}

proof fn heights_of_chunks(
    blocks: Seq<Seq<u32>>,
    chunks: int,
    edge: int,
    bx: int,
    bz: int,
    i: int,
    j: int,
)
    requires
        are_blocks(blocks, chunks, edge),
        0 <= bx < chunks,
        0 <= bz < chunks,
        0 <= i < edge,
        0 <= j < edge,
    ensures
        ({
            let k = (bz * edge + j) * (chunks * edge) + (bx * edge + i);
            &&& 0 <= k < (chunks * edge) * (chunks * edge)
            &&& mosaic_of(blocks, chunks, edge)[k] == blocks[bz * chunks + bx][j * edge + i]
        }),
{
    let w = chunks * edge;
    let (row, col) = (bz * edge + j, bx * edge + i);
    assert(0 <= row < w && 0 <= col < w) by {
        assert(bz * edge + edge <= chunks * edge && bx * edge + edge <= chunks * edge && 0 <= bz
            * edge && 0 <= bx * edge) by (nonlinear_arith)
            requires
                0 <= bz < chunks,
                0 <= bx < chunks,
                0 < edge,
        ;
    }
    let k = row * w + col;
    assert(0 <= k < w * w) by (nonlinear_arith)
        requires
            k == row * w + col,
            0 <= row < w,
            0 <= col < w,
    ;
    lemma_fundamental_div_mod_converse(k, w, row, col);
    lemma_fundamental_div_mod_converse(row, edge, bz, j);
    lemma_fundamental_div_mod_converse(col, edge, bx, i);
}

/// A chunk is taken from the mosaic as it was put there.
pub proof fn chunks_are_found_in_the_mosaic(
    blocks: Seq<Seq<u32>>,
    chunks: int,
    edge: int,
    bx: int,
    bz: int,
)
    requires
        are_blocks(blocks, chunks, edge),
        0 <= bx < chunks,
        0 <= bz < chunks,
    ensures
        terrain::block(mosaic_of(blocks, chunks, edge), chunks, edge, bx, bz) == blocks[bz * chunks
            + bx],
{
    let found = terrain::block(mosaic_of(blocks, chunks, edge), chunks, edge, bx, bz);
    let c = bz * chunks + bx;
    assert(0 <= c < chunks * chunks) by (nonlinear_arith)
        requires
            c == bz * chunks + bx,
            0 <= bx < chunks,
            0 <= bz < chunks,
    ;
    assert(blocks[c].len() == edge * edge);
    assert forall|k: int| 0 <= k < edge * edge implies found[k] == blocks[c][k] by {
        let (j, i) = (k / edge, k % edge);
        lemma_fundamental_div_mod(k, edge);
        lemma_mod_bound(k, edge);
        lemma_div_pos_is_pos(k, edge);
        lemma_multiply_divide_lt(k, edge, edge);
        assert(edge * j == j * edge) by (nonlinear_arith);
        heights_of_chunks(blocks, chunks, edge, bx, bz, i, j);
    }
    assert(found =~= blocks[c]);
}

/// The height map shows the visible poles of every chunk where the chunk lies: rows to
/// rows, columns to columns, from the first visible pole on.
pub proof fn visible_poles_are_shown_in_place(
    blocks: Seq<Seq<u32>>,
    chunks: int,
    edge: int,
    bx: int,
    bz: int,
    i: int,
    j: int,
)
    requires
        are_blocks(blocks, chunks, edge),
        0 <= bx < chunks,
        0 <= bz < chunks,
        0 <= i < edge - 3,
        0 <= j < edge - 3,
    ensures
        ({
            let n = chunks * (edge - 3) + 1;
            let k = (bz * (edge - 3) + j) * n + (bx * (edge - 3) + i);
            let shown = terrain::resampled(mosaic_of(blocks, chunks, edge), chunks, edge);
            &&& shown.len() == n * n
            &&& 0 <= k < n * n
            &&& shown[k] == blocks[bz * chunks + bx][(j + 1) * edge + (i + 1)]
        }),
{
    let vis = edge - 3;
    let n = chunks * vis + 1;
    let (r, c) = (bz * vis + j, bx * vis + i);
    assert(0 <= r < n && 0 <= c < n) by {
        assert(bz * vis + vis <= chunks * vis && bx * vis + vis <= chunks * vis && 0 <= bz * vis
            && 0 <= bx * vis) by (nonlinear_arith)
            requires
                0 <= bz < chunks,
                0 <= bx < chunks,
                0 < vis,
        ;
    }
    let k = r * n + c;
    assert(0 <= k < n * n) by (nonlinear_arith)
        requires
            k == r * n + c,
            0 <= r < n,
            0 <= c < n,
    ;
    lemma_fundamental_div_mod_converse(k, n, r, c);
    lemma_fundamental_div_mod_converse(r, vis, bz, j);
    lemma_fundamental_div_mod_converse(c, vis, bx, i);
    heights_of_chunks(blocks, chunks, edge, bx, bz, i + 1, j + 1);
}

#[verifier::rlimit(60)]
proof fn fields_stand(
    b: Seq<u8>,
    chunks: u16,
    edge: u16,
    min: u32,
    max: u32,
    table: Seq<u32>,
    words: Seq<u32>,
)
    requires
        layout::holds(b, 0, layout::joined(file(chunks, edge, min, max, table, words))),
    ensures
        layout::holds(b, 0, layout::le32(0x0062_7274)),
        layout::holds(b, 4, layout::le32((chunks * edge) as u32)),
        layout::holds(b, 8, layout::le32((chunks * edge) as u32)),
        layout::holds(b, 12, layout::le16(chunks)),
        layout::holds(b, 14, layout::le16(edge)),
        layout::holds(b, 16, layout::le32(min)),
        layout::holds(b, 20, layout::le32(max)),
        layout::holds(b, 24, layout::le32s(table)),
        layout::holds(b, (24 + 4 * table.len()) as int, layout::le32s(words)),
        layout::joined(file(chunks, edge, min, max, table, words)).len() == 24 + 4 * table.len() + 4
            * words.len(),
{
    let f = file(chunks, edge, min, max, table, words);
    layout::numbers_have_fixed_sizes();
    layout::vectors_have_fixed_sizes(table);
    layout::vectors_have_fixed_sizes(words);
    assert(layout::offset(f, 0) == 0);
    assert(layout::offset(f, 1) == 4);
    assert(layout::offset(f, 2) == 8);
    assert(layout::offset(f, 3) == 12);
    assert(layout::offset(f, 4) == 14);
    assert(layout::offset(f, 5) == 16);
    assert(layout::offset(f, 6) == 20);
    assert(layout::offset(f, 7) == 24);
    assert(layout::offset(f, 8) == 24 + 4 * table.len());
    assert(layout::offset(f, 9) == 24 + 4 * table.len() + 4 * words.len());
    layout::joined_is_as_long_as_its_fields(f);
    layout::field_stands(b, 0, f, 0);
    layout::field_stands(b, 0, f, 1);
    layout::field_stands(b, 0, f, 2);
    layout::field_stands(b, 0, f, 3);
    layout::field_stands(b, 0, f, 4);
    layout::field_stands(b, 0, f, 5);
    layout::field_stands(b, 0, f, 6);
    layout::field_stands(b, 0, f, 7);
    layout::field_stands(b, 0, f, 8);
}

#[verifier::rlimit(60)]
proof fn words_are_read_as_written(
    b: Seq<u8>,
    chunks: u16,
    edge: u16,
    min: u32,
    max: u32,
    table: Seq<u32>,
    words: Seq<u32>,
)
    requires
        table.len() == 2 * (chunks * chunks),
        chunks * edge <= u32::MAX,
        layout::holds(b, 0, layout::joined(file(chunks, edge, min, max, table, words))),
        b.len() == layout::joined(file(chunks, edge, min, max, table, words)).len(),
    ensures
        bytes::u32_at(b, 0) == 0x0062_7274,
        bytes::u32_at(b, 4) == chunks * edge,
        bytes::u32_at(b, 8) == chunks * edge,
        terrain::chunks_of(b) == chunks,
        terrain::edge_of(b) == edge,
        bytes::u32_at(b, 16) == min,
        bytes::u32_at(b, 20) == max,
        forall|i: int|
            0 <= i < table.len() ==> bytes::u32_at(b, 0x18 + 4 * i) == #[trigger] table[i],
        terrain::stream_words(b) == words,
        b.len() >= terrain::stream_offset(b),
        b.len() >= 0x18,
{
    fields_stand(b, chunks, edge, min, max, table, words);
    layout::reads_32(b, 0, 0x0062_7274);
    assert(0 <= chunks * edge) by (nonlinear_arith);
    layout::reads_32(b, 4, (chunks * edge) as u32);
    layout::reads_32(b, 8, (chunks * edge) as u32);
    layout::reads_16(b, 12, chunks);
    layout::reads_16(b, 14, edge);
    layout::reads_32(b, 16, min);
    layout::reads_32(b, 20, max);
    layout::reads_32s(b, 24, table);
    let at = 24 + 4 * table.len();
    layout::reads_32s(b, at as int, words);
    assert forall|i: int| 0 <= i < table.len() implies bytes::u32_at(b, 0x18 + 4 * i)
        == #[trigger] table[i] by {
        assert(bytes::u32s_at(b, 24, table.len() as int)[i] == table[i]);
    }
    assert(terrain::stream_offset(b) == at);
    assert((b.len() - at) / 4 == words.len());
    assert(terrain::stream_words(b) =~= bytes::u32s_at(b, at as int, words.len() as int));
}

/// A height map is read as it was written: the header, and of every chunk the visible
/// poles in their place. No chunk is reported where the table holds the extremes of each.
#[verifier::rlimit(50)]
pub proof fn height_maps_are_read_as_written(
    b: Seq<u8>,
    chunks: u16,
    edge: u16,
    min: u32,
    max: u32,
    table: Seq<u32>,
    blocks: Seq<Seq<u32>>,
    t: Terrain,
)
    requires
        are_blocks(blocks, chunks as int, edge as int),
        (chunks * edge) * (chunks * edge) <= u32::MAX,
        table.len() == 2 * (chunks * chunks),
        layout::holds(
            b,
            0,
            layout::joined(
                file(
                    chunks,
                    edge,
                    min,
                    max,
                    table,
                    terrain::encoded(mosaic_of(blocks, chunks as int, edge as int)),
                ),
            ),
        ),
        b.len() == layout::joined(
            file(
                chunks,
                edge,
                min,
                max,
                table,
                terrain::encoded(mosaic_of(blocks, chunks as int, edge as int)),
            ),
        ).len(),
        terrain::contents_stand(t, b),
    ensures
        terrain::terrain_error(b) is None,
        t.width == chunks * (edge - 3) + 1,
        t.height == t.width,
        t.chunks_per_axis == chunks,
        t.chunk_grid_edge == edge,
        t.min_height == min,
        t.max_height == max,
        forall|bx: int, bz: int, i: int, j: int|
            0 <= bx < chunks && 0 <= bz < chunks && 0 <= i < edge - 3 && 0 <= j < edge - 3
                ==> #[trigger] t.heightmap@[(bz * (edge - 3) + j) * (chunks * (edge - 3) + 1) + (bx
                * (edge - 3) + i)] == blocks[bz * chunks + bx][(j + 1) * edge + (i + 1)],
        (forall|c: int|
            0 <= c < chunks * chunks ==> single::lowest(#[trigger] blocks[c]) == table[2 * c]
                && single::highest(blocks[c]) == table[2 * c + 1]) ==> t.minmax_mismatches == 0,
{
    let (n, e) = (chunks as int, edge as int);
    let mosaic = mosaic_of(blocks, n, e);
    let words = terrain::encoded(mosaic);
    let w = n * e;
    assert(0 < w <= w * w) by (nonlinear_arith)
        requires
            w == n * e,
            0 < n,
            3 < e,
    ;
    words_are_read_as_written(b, chunks, edge, min, max, table, words);
    terrain::decoding_undoes_encoding(mosaic);
    assert forall|bx: int, bz: int, i: int, j: int|
        0 <= bx < chunks && 0 <= bz < chunks && 0 <= i < edge - 3 && 0 <= j < edge
            - 3 implies #[trigger] t.heightmap@[(bz * (edge - 3) + j) * (chunks * (edge - 3) + 1) + (
    bx * (edge - 3) + i)] == blocks[bz * chunks + bx][(j + 1) * edge + (i + 1)] by {
        visible_poles_are_shown_in_place(blocks, n, e, bx, bz, i, j);
    }
    if forall|c: int|
        0 <= c < chunks * chunks ==> single::lowest(#[trigger] blocks[c]) == table[2 * c]
            && single::highest(blocks[c]) == table[2 * c + 1] {
        assert forall|c: int| 0 <= c < n * n implies !#[trigger] terrain::chunk_mismatch(
            b,
            mosaic,
            c,
        ) by {
            let (bx, bz) = (c % n, c / n);
            lemma_fundamental_div_mod(c, n);
            lemma_mod_bound(c, n);
            lemma_div_pos_is_pos(c, n);
            lemma_multiply_divide_lt(c, n, n);
            assert(n * bz == bz * n) by (nonlinear_arith);
            chunks_are_found_in_the_mosaic(blocks, n, e, bx, bz);
            assert(bytes::u32_at(b, 0x18 + 4 * (2 * c)) == table[2 * c]);
            assert(bytes::u32_at(b, 0x18 + 4 * (2 * c + 1)) == table[2 * c + 1]);
            assert(single::lowest(blocks[c]) == table[2 * c]);
            nothing_differs_from_itself(table[2 * c]);
            nothing_differs_from_itself(table[2 * c + 1]);
        }
        no_chunk_is_reported(b, mosaic, n * n);
    }
}

proof fn nothing_differs_from_itself(a: u32)
    ensures
        !single::differ_noticeably(a, a),
{
    single::magnitudes_are_nonnegative();
    vstd::arithmetic::power2::lemma_pow2_pos(116);
}

proof fn no_chunk_is_reported(b: Seq<u8>, mosaic: Seq<u32>, n: int)
    requires
        forall|c: int| 0 <= c < n ==> !#[trigger] terrain::chunk_mismatch(b, mosaic, c),
    ensures
        terrain::mismatches(b, mosaic, n) == 0,
    decreases n,
{
    if n > 0 {
        no_chunk_is_reported(b, mosaic, n - 1);
    }
}

/// Every chunk that disagrees with the table is counted once.
pub proof fn reported_chunks_are_counted(b: Seq<u8>, mosaic: Seq<u32>, n: int, c: int)
    requires
        0 <= c < n,
    ensures
        terrain::chunk_mismatch(b, mosaic, c) ==> terrain::mismatches(b, mosaic, n) >= 1,
        terrain::mismatches(b, mosaic, n) == n <==> forall|k: int|
            0 <= k < n ==> #[trigger] terrain::chunk_mismatch(b, mosaic, k),
        0 <= terrain::mismatches(b, mosaic, n) <= n,
    decreases n,
{
    if n > 1 {
        let k = if c < n - 1 {
            c
        } else {
            0
        };
        reported_chunks_are_counted(b, mosaic, n - 1, k);
    } else {
        assert(terrain::mismatches(b, mosaic, 0) == 0);
    }
}

/// The lowest of some heights is one of them and not above any, the highest is one of them
/// and not below any.
#[verifier::rlimit(50)]
pub proof fn extremes_are_extreme(s: Seq<u32>, i: int)
    requires
        0 <= i < s.len(),
        forall|k: int| 0 <= k < s.len() ==> !single::is_nan(#[trigger] s[k]),
    ensures
        s.contains(single::lowest(s)) || single::lowest(s) == single::INFINITY_BITS,
        s.contains(single::highest(s)) || single::highest(s) == single::NEG_INFINITY_BITS,
        single::scaled(single::lowest(s)) <= single::scaled(s[i]) <= single::scaled(
            single::highest(s),
        ),
        !single::is_nan(single::lowest(s)),
        !single::is_nan(single::highest(s)),
    decreases s.len(),
{
    let rest = s.drop_last();
    let last = s.last();
    assert(s[s.len() - 1] == last);
    if rest.len() > 0 {
        let k = if i < rest.len() {
            i
        } else {
            0
        };
        assert forall|j: int| 0 <= j < rest.len() implies !single::is_nan(#[trigger] rest[j]) by {
            assert(rest[j] == s[j]);
        }
        extremes_are_extreme(rest, k);
        if rest.contains(single::lowest(rest)) {
            let j = choose|j: int| 0 <= j < rest.len() && rest[j] == single::lowest(rest);
            assert(s[j] == single::lowest(rest));
        }
        if rest.contains(single::highest(rest)) {
            let j = choose|j: int| 0 <= j < rest.len() && rest[j] == single::highest(rest);
            assert(s[j] == single::highest(rest));
        }
    } else {
        assert(single::lowest(rest) == single::INFINITY_BITS);
        assert(single::highest(rest) == single::NEG_INFINITY_BITS);
        numbers_lie_between_the_infinities(last);
    }
}

proof fn numbers_lie_between_the_infinities(x: u32)
    requires
        !single::is_nan(x),
    ensures
        single::scaled(single::NEG_INFINITY_BITS) <= single::scaled(x) <= single::scaled(
            single::INFINITY_BITS,
        ),
{
    single::magnitudes_are_nonnegative();
    if single::magnitude(x) < single::INFINITY_BITS {
        single::scaled_magnitude_is_monotone(single::magnitude(x), single::INFINITY_BITS);
    }
    assert(single::magnitude(single::NEG_INFINITY_BITS) == single::INFINITY_BITS);
}

} // verus!
