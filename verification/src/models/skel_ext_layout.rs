//! What a `.skel_ext` file looks like to those who write it, that the reader in `skel_ext`
//! gives back what was written, and what its conversions do to points.
use vstd::prelude::*;
use vstd::arithmetic::power2::*;

use crate::arith;
use crate::bytes;
use crate::exact;
use crate::models::layout;
use crate::models::skel_ext;
use crate::models::skel_ext::{SkelExtPlacement, SkelExtRecord};
use crate::models::transform;
use crate::single;

verus! {

/// A slot of the record array: type, entry count, four bytes that nothing uses, and the
/// offsets of the placement hashes, the bone hashes and the matrices.
pub open spec fn record(
    kind: u16,
    count: u16,
    gap: Seq<u8>,
    hashes: u64,
    bones: u64,
    matrices: u64,
) -> Seq<Seq<u8>> {
    seq![
        layout::le16(kind),
        layout::le16(count),
        gap,
        layout::le64(hashes),
        layout::le64(bones),
        layout::le64(matrices),
    ]
}

/// A slot is read as it was written.
pub proof fn records_are_read_as_written(
    b: Seq<u8>,
    off: int,
    kind: u16,
    count: u16,
    gap: Seq<u8>,
    hashes: u64,
    bones: u64,
    matrices: u64,
)
    requires
        0 <= off <= u64::MAX,
        gap.len() == 4,
        layout::holds(
            b,
            off,
            layout::joined(record(kind, count, gap, hashes, bones, matrices)),
        ),
    ensures
        skel_ext::record_at(b, off) == (SkelExtRecord {
            file_offset: off as u64,
            type_: kind,
            count,
            p0: hashes,
            p1: bones,
            p2: matrices,
        }),
{
    let f = record(kind, count, gap, hashes, bones, matrices);
    layout::numbers_have_fixed_sizes();
    reveal_with_fuel(layout::offset, 7);
    layout::field_stands(b, off, f, 0);
    layout::field_stands(b, off, f, 1);
    layout::field_stands(b, off, f, 3);
    layout::field_stands(b, off, f, 4);
    layout::field_stands(b, off, f, 5);
    layout::reads_16(b, off, kind);
    layout::reads_16(b, off + 2, count);
    layout::reads_64(b, off + 8, hashes);
    layout::reads_64(b, off + 16, bones);
    layout::reads_64(b, off + 24, matrices);
}

proof fn filters_keep_all<T>(s: Seq<T>, p: spec_fn(T) -> bool)
    requires
        forall|i: int| 0 <= i < s.len() ==> p(#[trigger] s[i]),
    ensures
        s.filter(p) == s,
    decreases s.len(),
{
    reveal(Seq::filter);
    if s.len() > 0 {
        filters_keep_all(s.drop_last(), p);
        assert(s.drop_last().push(s.last()) =~= s);
    }
}

/// The placements of a record are read as they were written, all but the last one: each
/// with its own hash, its own bone and its own matrix.
pub proof fn placements_are_read_as_written(
    b: Seq<u8>,
    r: SkelExtRecord,
    hashes: Seq<u32>,
    bones: Seq<u32>,
    matrices: Seq<Seq<u32>>,
)
    requires
        r.count >= 2,
        hashes.len() == r.count,
        bones.len() == r.count,
        matrices.len() == r.count - 1,
        forall|i: int| 0 <= i < matrices.len() ==> (#[trigger] matrices[i]).len() == 16,
        forall|i: int|
            0 <= i < matrices.len() ==> skel_ext::has_affine_row(#[trigger] matrices[i]),
        layout::holds(b, r.p0 as int, layout::le32s(hashes)),
        layout::holds(b, r.p1 as int, layout::le32s(bones)),
        layout::holds(b, r.p2 as int, layout::matrices(matrices)),
    ensures
        skel_ext::placements_of(b, r).len() == r.count - 1,
        forall|i: int|
            0 <= i < r.count - 1 ==> {
                let p = #[trigger] skel_ext::placements_of(b, r)[i];
                &&& p.record_offset == r.file_offset
                &&& p.record_type == r.type_
                &&& p.record_count == r.count
                &&& p.matrix_index == i
                &&& p.p0_hash == hashes[i]
                &&& p.p1_hash == bones[i]
                &&& p.matrix == matrices[i]
            },
{
    layout::reads_32s(b, r.p0 as int, hashes);
    layout::reads_32s(b, r.p1 as int, bones);
    layout::reads_matrices(b, r.p2 as int, matrices);
    let all = skel_ext::matrices_of(b, r);
    assert forall|i: int| 0 <= i < all.len() implies (#[trigger] all[i]).matrix == matrices[i]
        && all[i].p0_hash == hashes[i] && all[i].p1_hash == bones[i] by {
        assert(bytes::u32s_at(b, r.p0 as int, hashes.len() as int)[i] == hashes[i]);
        assert(bytes::u32s_at(b, r.p1 as int, bones.len() as int)[i] == bones[i]);
        let m = crate::models::visual::matrices_at(b, r.p2 as int, matrices.len() as int);
        assert(m[i] == matrices[i]);
        assert(skel_ext::matrix_at(b, r.p2 + 64 * i) =~= m[i]);
    }
    filters_keep_all(all, skel_ext::affine_placement());
}

/// Turning to the other handedness mirrors what a transform does: the mirror image of a
/// point is taken to the mirror image of where the point was taken.
#[verifier::rlimit(50)]
pub proof fn mirrored_transforms_take_mirrored_points(
    m: Seq<u32>,
    p: Seq<u32>,
    mirrored: Seq<u32>,
    n: Seq<int>,
    q: Seq<int>,
)
    requires
        transform::cells_are(m, n),
        transform::place_is(p, q),
        transform::place_is(mirrored, seq![q[0], q[1], -q[2]]),
        transform::within(n, 1024),
        transform::within(q, 1024),
    ensures
        transform::place_is(
            transform::transformed(skel_ext::z_negated(m), mirrored),
            seq![
                transform::taken(n, q)[0],
                transform::taken(n, q)[1],
                -transform::taken(n, q)[2],
            ],
        ),
{
    let cells = Seq::new(
        16,
        |i: int|
            if skel_ext::flips_sign(i) {
                -n[i]
            } else {
                n[i]
            },
    );
    assert forall|i: int| 0 <= i < 16 implies exact::stands_for(
        #[trigger] skel_ext::z_negated(m)[i],
        cells[i],
        0,
    ) by {
        assert(exact::stands_for(m[i], n[i], 0));
        exact::negations(m[i], n[i], 0);
    }
    assert forall|i: int| 0 <= i < 16 implies -1024 <= #[trigger] cells[i] <= 1024 by {
        assert(-1024 <= n[i] <= 1024);
    }
    let turned = seq![q[0], q[1], -q[2]];
    assert(transform::within(turned, 1024)) by {
        assert(-1024 <= q[0] <= 1024 && -1024 <= q[1] <= 1024 && -1024 <= q[2] <= 1024);
    }
    transform::points_are_taken_along_the_axes(
        skel_ext::z_negated(m),
        mirrored,
        cells,
        turned,
        1024,
        1024,
    );
    let (x, y, z) = (q[0], q[1], q[2]);
    assert((-z) * (-n[8]) == z * n[8] && (-z) * (-n[9]) == z * n[9] && (-z) * n[10] == -(z * n[10])
        && x * (-n[2]) == -(x * n[2]) && y * (-n[6]) == -(y * n[6])) by (nonlinear_arith);
    assert(transform::taken(cells, turned) =~= seq![
        transform::taken(n, q)[0],
        transform::taken(n, q)[1],
        -transform::taken(n, q)[2],
    ]);
}

/// A unit is fifteen metres: places are fifteen times as far away, and nothing is turned.
pub proof fn units_are_fifteen_metres(m: Seq<u32>, n: Seq<int>)
    requires
        transform::cells_are(m, n),
        transform::within(n, 0x1_0000),
    ensures
        skel_ext::in_metres(m).len() == 16,
        forall|i: int| 0 <= i < 16 && i != 12 && i != 13 && i != 14 ==> #[trigger] skel_ext::in_metres(
            m,
        )[i] == m[i],
        exact::stands_for(skel_ext::in_metres(m)[12], 15 * n[12], 0),
        exact::stands_for(skel_ext::in_metres(m)[13], 15 * n[13], 0),
        exact::stands_for(skel_ext::in_metres(m)[14], 15 * n[14], 0),
{
    fifteen();
    assert(exact::stands_for(m[12], n[12], 0) && exact::stands_for(m[13], n[13], 0)
        && exact::stands_for(m[14], n[14], 0));
    assert(-0x1_0000 <= n[12] <= 0x1_0000 && -0x1_0000 <= n[13] <= 0x1_0000 && -0x1_0000 <= n[14]
        <= 0x1_0000);
    exact::products(m[12], skel_ext::NATIVE_TO_METRES, n[12], 15, 0, 0);
    exact::products(m[13], skel_ext::NATIVE_TO_METRES, n[13], 15, 0, 0);
    exact::products(m[14], skel_ext::NATIVE_TO_METRES, n[14], 15, 0, 0);
}

proof fn fifteen()
    ensures
        exact::stands_for(skel_ext::NATIVE_TO_METRES, 15, 0),
{
    lemma2_to64();
    arith::sizes_by_parts(skel_ext::NATIVE_TO_METRES);
    lemma_pow2_adds(20, 129);
    assert(0xF0_0000 * pow2(129) == 15 * (0x10_0000 * pow2(129)));
}

/// Whole numbers are nearest to themselves.
pub proof fn whole_numbers_are_nearest(a: u32, n: int)
    requires
        exact::size(n) < 0x100_0000,
        exact::stands_for(a, n, 0),
    ensures
        arith::nearest_whole(a) == n,
{
    exact::signs_of_numbers(a, n, 0);
    let s = exact::size(n);
    let c = pow2(149) as int;
    lemma_pow2_pos(149);
    lemma_pow2_unfold(150);
    let x = 2 * s + 1;
    assert(2 * (s * c) + c == c * x) by (nonlinear_arith)
        requires
            x == 2 * s + 1,
    ;
    vstd::arithmetic::div_mod::lemma_div_multiples_vanish_quotient(c, x, 2);
    assert(c * 2 == pow2(150));
    assert(x / 2 == s);
}

/// A placement lies in the cell of its own three coordinates: with cells of one unit, and
/// whole coordinates, the cell is the place.
pub proof fn cells_are_those_of_the_place(p: SkelExtPlacement, n: Seq<int>)
    requires
        transform::cells_are(p.matrix@, n),
        transform::within(n, 0x10_0000),
    ensures
        skel_ext::cell_of(p, single::ONE_BITS).x == n[12],
        skel_ext::cell_of(p, single::ONE_BITS).y == n[13],
        skel_ext::cell_of(p, single::ONE_BITS).z == n[14],
{
    lemma2_to64();
    exact::one();
    assert forall|i: int| 12 <= i < 15 implies #[trigger] arith::nearest_whole(
        arith::quotient(p.matrix@[i], single::ONE_BITS),
    ) == n[i] by {
        assert(exact::stands_for(p.matrix@[i], n[i], 0));
        assert(-0x10_0000 <= n[i] <= 0x10_0000);
        exact::quotients_by_powers(p.matrix@[i], single::ONE_BITS, n[i], 0, 0);
        whole_numbers_are_nearest(arith::quotient(p.matrix@[i], single::ONE_BITS), n[i]);
    }
}

} // verus!
