//! Products, determinants and points of column-major 4x4 transforms in single precision.
use vstd::prelude::*;
use vstd::arithmetic::mul::*;

use crate::arith;
use crate::exact;
use crate::models::visual::Matrix4x4;
use crate::single;

verus! {

/// The difference of two numbers.
pub open spec fn difference(a: u32, b: u32) -> u32 {
    arith::sum(a, single::negated(b))
}

/// Two products added.
pub open spec fn sum2(a: u32, b: u32, c: u32, d: u32) -> u32 {
    arith::sum(arith::product(a, b), arith::product(c, d))
}

/// A cell of the product of two transforms: a row of the first times a column of the
/// second, added from left to right.
pub open spec fn product_cell(a: Seq<u32>, b: Seq<u32>, row: int, col: int) -> u32 {
    arith::sum(
        arith::sum(
            sum2(a[row], b[4 * col], a[4 + row], b[4 * col + 1]),
            arith::product(a[8 + row], b[4 * col + 2]),
        ),
        arith::product(a[12 + row], b[4 * col + 3]),
    )
}

/// The product of two transforms.
pub open spec fn matrix_product(a: Seq<u32>, b: Seq<u32>) -> Seq<u32> {
    Seq::new(16, |i: int| product_cell(a, b, i % 4, i / 4))
}

fn multiply_cell(a: &[u32; 16], b: &[u32; 16], row: usize, col: usize) -> (r: u32)
    requires
        row < 4,
        col < 4,
    ensures
        r == product_cell(a@, b@, row as int, col as int),
{
    let x: u32 = arith::add_singles(
        arith::multiply_singles(a[row], b[4 * col]),
        arith::multiply_singles(a[4 + row], b[4 * col + 1]),
    );
    let y: u32 = arith::add_singles(x, arith::multiply_singles(a[8 + row], b[4 * col + 2]));
    arith::add_singles(y, arith::multiply_singles(a[12 + row], b[4 * col + 3]))
}

/// Multiplies two transforms: the product applies the second one first.
pub fn mat4_mul_col_major(a: &Matrix4x4, b: &Matrix4x4) -> (r: Matrix4x4)
    ensures
        r@ == matrix_product(a@, b@),
{
    let mut out: [u32; 16] = [0; 16];
    let mut i: usize = 0;
    while i < 16
        invariant
            i <= 16,
            forall|k: int|
                0 <= k < i ==> (#[trigger] out@[k]) == product_cell(a@, b@, k % 4, k / 4),
        decreases 16 - i,
    {
        out[i] = multiply_cell(&a.0, &b.0, i % 4, i / 4);
        i += 1;
    }
    assert(out@ =~= matrix_product(a@, b@));
    Matrix4x4(out)
}

/// The determinant of the rotation of a transform.
pub open spec fn determinant(m: Seq<u32>) -> u32 {
    arith::sum(
        difference(
            arith::product(m[0], difference(arith::product(m[5], m[10]), arith::product(m[6], m[9]))),
            arith::product(m[4], difference(arith::product(m[1], m[10]), arith::product(m[2], m[9]))),
        ),
        arith::product(m[8], difference(arith::product(m[1], m[6]), arith::product(m[2], m[5]))),
    )
}

fn cross(a: u32, b: u32, c: u32, d: u32) -> (r: u32)
    ensures
        r == difference(arith::product(a, b), arith::product(c, d)),
{
    arith::subtract_singles(arith::multiply_singles(a, b), arith::multiply_singles(c, d))
}

/// Computes the determinant of the rotation of a transform.
pub fn mat3_determinant(m: &Matrix4x4) -> (r: u32)
    ensures
        r == determinant(m@),
{
    let a = &m.0;
    let x: u32 = arith::multiply_singles(a[0], cross(a[5], a[10], a[6], a[9]));
    let y: u32 = arith::multiply_singles(a[4], cross(a[1], a[10], a[2], a[9]));
    let z: u32 = arith::multiply_singles(a[8], cross(a[1], a[6], a[2], a[5]));
    arith::add_singles(arith::subtract_singles(x, y), z)
}

proof fn differences_of_opposites(a: u32, b: u32, c: u32, d: u32)
    requires
        arith::are_opposite(a, c),
        arith::are_opposite(b, d),
    ensures
        arith::are_opposite(difference(a, b), difference(c, d)),
{
    arith::negations_of_opposites(b, d);
    arith::sums_of_opposites(a, single::negated(b), c, single::negated(d));
}

/// Negating the first column of a transform negates its determinant.
pub proof fn negated_columns_negate_the_determinant(m: Seq<u32>, n: Seq<u32>)
    requires
        m.len() == 16,
        n.len() == 16,
        arith::are_opposite(m[0], n[0]),
        arith::are_opposite(m[1], n[1]),
        arith::are_opposite(m[2], n[2]),
        forall|i: int| 4 <= i < 16 ==> (#[trigger] m[i]) == n[i],
    ensures
        arith::are_opposite(determinant(m), determinant(n)),
{
    let x = difference(arith::product(m[5], m[10]), arith::product(m[6], m[9]));
    let (y1, y2) = (arith::product(m[1], m[10]), arith::product(m[2], m[9]));
    let (w1, w2) = (arith::product(n[1], m[10]), arith::product(n[2], m[9]));
    let (z1, z2) = (arith::product(m[1], m[6]), arith::product(m[2], m[5]));
    let (v1, v2) = (arith::product(n[1], m[6]), arith::product(n[2], m[5]));
    arith::products_of_opposites(m[0], n[0], x);
    arith::products_of_opposites(m[1], n[1], m[10]);
    arith::products_of_opposites(m[2], n[2], m[9]);
    arith::products_of_opposites(m[1], n[1], m[6]);
    arith::products_of_opposites(m[2], n[2], m[5]);
    differences_of_opposites(y1, y2, w1, w2);
    differences_of_opposites(z1, z2, v1, v2);
    let (y, w) = (difference(y1, y2), difference(w1, w2));
    let (z, v) = (difference(z1, z2), difference(v1, v2));
    arith::products_of_opposites(y, w, m[4]);
    arith::products_of_opposites(z, v, m[8]);
    let (p, q) = (arith::product(m[0], x), arith::product(n[0], x));
    let (r, t) = (arith::product(m[4], y), arith::product(m[4], w));
    differences_of_opposites(p, r, q, t);
    arith::sums_of_opposites(
        difference(p, r),
        arith::product(m[8], z),
        difference(q, t),
        arith::product(m[8], v),
    );
}

/// Whether a transform mirrors: its determinant is negative.
pub open spec fn mirrors(m: Seq<u32>) -> bool {
    arith::is_less(determinant(m), 0)
}

/// Whether a transform does not mirror: its determinant is a number and not negative.
pub open spec fn is_proper(m: Seq<u32>) -> bool {
    !single::is_nan(determinant(m)) && !mirrors(m)
}

/// Finds whether a transform mirrors.
pub fn has_mirror(m: &Matrix4x4) -> (r: bool)
    ensures
        r == mirrors(m@),
{
    arith::less_than(mat3_determinant(m), 0)
}

/// Finds whether a transform does not mirror.
pub fn has_no_mirror(m: &Matrix4x4) -> (r: bool)
    ensures
        r == is_proper(m@),
{
    let d: u32 = mat3_determinant(m);
    d % 0x8000_0000 <= single::INFINITY_BITS && !arith::less_than(d, 0)
}

/// A coordinate of a transformed point.
pub open spec fn transformed_at(m: Seq<u32>, p: Seq<u32>, row: int) -> u32 {
    arith::sum(
        arith::sum(
            sum2(m[row], p[0], m[4 + row], p[1]),
            arith::product(m[8 + row], p[2]),
        ),
        m[12 + row],
    )
}

/// A point under a transform.
pub open spec fn transformed(m: Seq<u32>, p: Seq<u32>) -> Seq<u32> {
    Seq::new(3, |i: int| transformed_at(m, p, i))
}

fn transform_at(m: &[u32; 16], p: &[u32; 3], row: usize) -> (r: u32)
    requires
        row < 3,
    ensures
        r == transformed_at(m@, p@, row as int),
{
    let x: u32 = arith::add_singles(
        arith::multiply_singles(m[row], p[0]),
        arith::multiply_singles(m[4 + row], p[1]),
    );
    let y: u32 = arith::add_singles(x, arith::multiply_singles(m[8 + row], p[2]));
    arith::add_singles(y, m[12 + row])
}

/// Applies a transform to a point.
pub fn transform_point(m: &Matrix4x4, p: [u32; 3]) -> (r: [u32; 3])
    ensures
        r@ == transformed(m@, p@),
{
    let r: [u32; 3] = [
        transform_at(&m.0, &p, 0),
        transform_at(&m.0, &p, 1),
        transform_at(&m.0, &p, 2),
    ];
    assert(r@ =~= transformed(m@, p@));
    r
}

// ---- Whole numbers ----------------------------------------------------------

/// Whether the patterns of a transform are those of whole numbers.
pub open spec fn cells_are(m: Seq<u32>, n: Seq<int>) -> bool {
    &&& m.len() == 16
    &&& n.len() == 16
    &&& forall|i: int| 0 <= i < 16 ==> exact::stands_for(#[trigger] m[i], n[i], 0)
}

/// Whether the patterns of a point are those of whole numbers.
pub open spec fn place_is(p: Seq<u32>, q: Seq<int>) -> bool {
    &&& p.len() == 3
    &&& q.len() == 3
    &&& forall|i: int| 0 <= i < 3 ==> exact::stands_for(#[trigger] p[i], q[i], 0)
}

/// Whether numbers are not larger than a bound, with either sign.
pub open spec fn within(n: Seq<int>, bound: int) -> bool {
    forall|i: int| 0 <= i < n.len() ==> -bound <= #[trigger] n[i] <= bound
}

/// Whether the last row of a transform is that of one that moves points.
pub open spec fn moves_points(n: Seq<int>) -> bool {
    n[3] == 0 && n[7] == 0 && n[11] == 0 && n[15] == 1
}

/// Where a transform takes a point, in whole numbers: the point's coordinates along the
/// three axes of the transform, from its origin.
pub open spec fn taken(n: Seq<int>, q: Seq<int>) -> Seq<int> {
    seq![
        n[12] + q[0] * n[0] + q[1] * n[4] + q[2] * n[8],
        n[13] + q[0] * n[1] + q[1] * n[5] + q[2] * n[9],
        n[14] + q[0] * n[2] + q[1] * n[6] + q[2] * n[10],
    ]
}

pub(crate) proof fn products_are_bounded(a: int, b: int, x: int, y: int)
    requires
        -x <= a <= x,
        -y <= b <= y,
    ensures
        -(x * y) <= a * b <= x * y,
{
    assert(-(x * y) <= a * b <= x * y) by (nonlinear_arith)
        requires
            -x <= a <= x,
            -y <= b <= y,
    ;
}

#[verifier::rlimit(50)]
proof fn four_terms(
    a: (u32, u32, u32, u32),
    b: (u32, u32, u32, u32),
    m: (int, int, int, int),
    n: (int, int, int, int),
    x: int,
    y: int,
)
    requires
        exact::stands_for(a.0, m.0, 0),
        exact::stands_for(a.1, m.1, 0),
        exact::stands_for(a.2, m.2, 0),
        exact::stands_for(a.3, m.3, 0),
        exact::stands_for(b.0, n.0, 0),
        exact::stands_for(b.1, n.1, 0),
        exact::stands_for(b.2, n.2, 0),
        exact::stands_for(b.3, n.3, 0),
        -x <= m.0 <= x,
        -x <= m.1 <= x,
        -x <= m.2 <= x,
        -x <= m.3 <= x,
        -y <= n.0 <= y,
        -y <= n.1 <= y,
        -y <= n.2 <= y,
        -y <= n.3 <= y,
        0 < x,
        0 < y,
        x * y < 0x40_0000,
    ensures
        exact::stands_for(
            arith::sum(
                arith::sum(sum2(a.0, b.0, a.1, b.1), arith::product(a.2, b.2)),
                arith::product(a.3, b.3),
            ),
            m.0 * n.0 + m.1 * n.1 + m.2 * n.2 + m.3 * n.3,
            0,
        ),
        exact::stands_for(
            arith::sum(
                arith::sum(sum2(a.0, b.0, a.1, b.1), arith::product(a.2, b.2)),
                a.3,
            ),
            m.0 * n.0 + m.1 * n.1 + m.2 * n.2 + m.3,
            0,
        ),
{
    assert(x < 0x40_0000) by (nonlinear_arith)
        requires
            x * y < 0x40_0000,
            0 < x,
            1 <= y,
    ;
    assert(0 <= x * y) by (nonlinear_arith)
        requires
            0 < x,
            0 < y,
    ;
    products_are_bounded(m.0, n.0, x, y);
    products_are_bounded(m.1, n.1, x, y);
    products_are_bounded(m.2, n.2, x, y);
    products_are_bounded(m.3, n.3, x, y);
    exact::products(a.0, b.0, m.0, n.0, 0, 0);
    exact::products(a.1, b.1, m.1, n.1, 0, 0);
    exact::products(a.2, b.2, m.2, n.2, 0, 0);
    exact::products(a.3, b.3, m.3, n.3, 0, 0);
    let (p, q) = (arith::product(a.0, b.0), arith::product(a.1, b.1));
    exact::sums(p, q, m.0 * n.0, m.1 * n.1, 0);
    let r = arith::sum(p, q);
    exact::sums(r, arith::product(a.2, b.2), m.0 * n.0 + m.1 * n.1, m.2 * n.2, 0);
    let s = arith::sum(r, arith::product(a.2, b.2));
    exact::sums(
        s,
        arith::product(a.3, b.3),
        m.0 * n.0 + m.1 * n.1 + m.2 * n.2,
        m.3 * n.3,
        0,
    );
    exact::sums(s, a.3, m.0 * n.0 + m.1 * n.1 + m.2 * n.2, m.3, 0);
}

/// A transform takes a point to its origin and from there along its axes, as far as the
/// point's coordinates say. Small whole numbers are exact.
#[verifier::rlimit(50)]
pub proof fn points_are_taken_along_the_axes(
    m: Seq<u32>,
    p: Seq<u32>,
    n: Seq<int>,
    q: Seq<int>,
    x: int,
    y: int,
)
    requires
        cells_are(m, n),
        place_is(p, q),
        within(n, x),
        within(q, y),
        0 < x,
        0 < y,
        x * y < 0x40_0000,
    ensures
        place_is(transformed(m, p), taken(n, q)),
{
    exact::one();
    assert forall|i: int| 0 <= i < 3 implies exact::stands_for(
        #[trigger] transformed(m, p)[i],
        taken(n, q)[i],
        0,
    ) by {
        assert(exact::stands_for(m[i], n[i], 0) && exact::stands_for(m[4 + i], n[4 + i], 0)
            && exact::stands_for(m[8 + i], n[8 + i], 0) && exact::stands_for(
            m[12 + i],
            n[12 + i],
            0,
        ));
        assert(exact::stands_for(p[0], q[0], 0) && exact::stands_for(p[1], q[1], 0)
            && exact::stands_for(p[2], q[2], 0));
        assert(-x <= n[i] <= x && -x <= n[4 + i] <= x && -x <= n[8 + i] <= x && -x <= n[12 + i]
            <= x);
        assert(-y <= q[0] <= y && -y <= q[1] <= y && -y <= q[2] <= y);
        four_terms(
            (m[i], m[4 + i], m[8 + i], m[12 + i]),
            (p[0], p[1], p[2], single::ONE_BITS),
            (n[i], n[4 + i], n[8 + i], n[12 + i]),
            (q[0], q[1], q[2], 1),
            x,
            y,
        );
        assert(n[i] * q[0] == q[0] * n[i] && n[4 + i] * q[1] == q[1] * n[4 + i] && n[8 + i] * q[2]
            == q[2] * n[8 + i]) by (nonlinear_arith);
    }
}

/// A column of the product of two transforms is the first one applied to that column of
/// the second one.
pub open spec fn applied(a: Seq<int>, v: (int, int, int, int), row: int) -> int {
    v.0 * a[row] + v.1 * a[4 + row] + v.2 * a[8 + row] + v.3 * a[12 + row]
}

/// The product of two transforms in whole numbers, column by column.
pub open spec fn applied_to_columns(a: Seq<int>, b: Seq<int>) -> Seq<int> {
    Seq::new(
        16,
        |i: int|
            applied(
                a,
                (b[i / 4 * 4], b[i / 4 * 4 + 1], b[i / 4 * 4 + 2], b[i / 4 * 4 + 3]),
                i % 4,
            ),
    )
}

/// The product of two transforms of small whole numbers is exact.
#[verifier::rlimit(50)]
pub proof fn small_transforms_multiply_exactly(
    a: Seq<u32>,
    b: Seq<u32>,
    m: Seq<int>,
    n: Seq<int>,
    x: int,
    y: int,
)
    requires
        cells_are(a, m),
        cells_are(b, n),
        within(m, x),
        within(n, y),
        0 < x,
        0 < y,
        x * y < 0x40_0000,
    ensures
        cells_are(matrix_product(a, b), applied_to_columns(m, n)),
{
    assert forall|i: int| 0 <= i < 16 implies exact::stands_for(
        #[trigger] matrix_product(a, b)[i],
        applied_to_columns(m, n)[i],
        0,
    ) by {
        let (r, c) = (i % 4, i / 4);
        assert(exact::stands_for(a[r], m[r], 0) && exact::stands_for(a[4 + r], m[4 + r], 0)
            && exact::stands_for(a[8 + r], m[8 + r], 0) && exact::stands_for(
            a[12 + r],
            m[12 + r],
            0,
        ));
        assert(exact::stands_for(b[4 * c], n[4 * c], 0) && exact::stands_for(
            b[4 * c + 1],
            n[4 * c + 1],
            0,
        ) && exact::stands_for(b[4 * c + 2], n[4 * c + 2], 0) && exact::stands_for(
            b[4 * c + 3],
            n[4 * c + 3],
            0,
        ));
        assert(-x <= m[r] <= x && -x <= m[4 + r] <= x && -x <= m[8 + r] <= x && -x <= m[12 + r]
            <= x);
        assert(-y <= n[4 * c] <= y && -y <= n[4 * c + 1] <= y && -y <= n[4 * c + 2] <= y && -y
            <= n[4 * c + 3] <= y);
        four_terms(
            (a[r], a[4 + r], a[8 + r], a[12 + r]),
            (b[4 * c], b[4 * c + 1], b[4 * c + 2], b[4 * c + 3]),
            (m[r], m[4 + r], m[8 + r], m[12 + r]),
            (n[4 * c], n[4 * c + 1], n[4 * c + 2], n[4 * c + 3]),
            x,
            y,
        );
        let (b0, b1, b2, b3) = (n[4 * c], n[4 * c + 1], n[4 * c + 2], n[4 * c + 3]);
        let (a0, a1, a2, a3) = (m[r], m[4 + r], m[8 + r], m[12 + r]);
        assert(a0 * b0 == b0 * a0 && a1 * b1 == b1 * a1 && a2 * b2 == b2 * a2 && a3 * b3 == b3
            * a3) by (nonlinear_arith);
    }
}

proof fn scaled_place(c: int, x: int, u: int, y: int, v: int, z: int, w: int, a: int)
    ensures
        (c + x * u + y * v + z * w) * a == c * a + x * (u * a) + y * (v * a) + z * (w * a),
{
    lemma_mul_is_associative(x, u, a);
    lemma_mul_is_associative(y, v, a);
    lemma_mul_is_associative(z, w, a);
    lemma_mul_is_distributive_add_other_way(a, c + x * u + y * v, z * w);
    lemma_mul_is_distributive_add_other_way(a, c + x * u, y * v);
    lemma_mul_is_distributive_add_other_way(a, c, x * u);
}

proof fn one_row(a: (int, int, int, int), b: Seq<int>, q: Seq<int>)
    requires
        moves_points(b),
    ensures
        ({
            let v = taken(b, q);
            let (c0, c1, c2, c3) = (
                b[0] * a.0 + b[1] * a.1 + b[2] * a.2 + b[3] * a.3,
                b[4] * a.0 + b[5] * a.1 + b[6] * a.2 + b[7] * a.3,
                b[8] * a.0 + b[9] * a.1 + b[10] * a.2 + b[11] * a.3,
                b[12] * a.0 + b[13] * a.1 + b[14] * a.2 + b[15] * a.3,
            );
            c3 + q[0] * c0 + q[1] * c1 + q[2] * c2 == a.3 + v[0] * a.0 + v[1] * a.1 + v[2] * a.2
        }),
{
    let v = taken(b, q);
    let (x, y, z) = (q[0], q[1], q[2]);
    let (a0, a1, a2, a3) = (a.0, a.1, a.2, a.3);
    let (b0, b1, b2) = (b[0], b[1], b[2]);
    let (b4, b5, b6) = (b[4], b[5], b[6]);
    let (b8, b9, b10) = (b[8], b[9], b[10]);
    let (b12, b13, b14) = (b[12], b[13], b[14]);
    scaled_place(b12, x, b0, y, b4, z, b8, a0);
    scaled_place(b13, x, b1, y, b5, z, b9, a1);
    scaled_place(b14, x, b2, y, b6, z, b10, a2);
    assert(x * (b0 * a0 + b1 * a1 + b2 * a2) == x * (b0 * a0) + x * (b1 * a1) + x * (b2 * a2))
        by (nonlinear_arith);
    assert(y * (b4 * a0 + b5 * a1 + b6 * a2) == y * (b4 * a0) + y * (b5 * a1) + y * (b6 * a2))
        by (nonlinear_arith);
    assert(z * (b8 * a0 + b9 * a1 + b10 * a2) == z * (b8 * a0) + z * (b9 * a1) + z * (b10 * a2))
        by (nonlinear_arith);
    assert(0 * a3 == 0 && 1 * a3 == a3);
}

/// The product of two transforms applies the second one first: it takes a point where the
/// first one takes what the second one makes of the point.
#[verifier::rlimit(50)]
pub proof fn products_apply_the_second_transform_first(
    a: Seq<u32>,
    b: Seq<u32>,
    p: Seq<u32>,
    m: Seq<int>,
    n: Seq<int>,
    q: Seq<int>,
)
    requires
        cells_are(a, m),
        cells_are(b, n),
        place_is(p, q),
        within(m, 64),
        within(n, 64),
        within(q, 64),
        moves_points(m),
        moves_points(n),
    ensures
        place_is(transformed(matrix_product(a, b), p), taken(m, taken(n, q))),
        place_is(transformed(a, transformed(b, p)), taken(m, taken(n, q))),
{
    points_are_taken_along_the_axes(b, p, n, q, 64, 64);
    let v = taken(n, q);
    assert(within(v, 0x4000)) by {
        assert forall|i: int| 0 <= i < 3 implies -0x4000 <= #[trigger] v[i] <= 0x4000 by {
            products_are_bounded(q[0], n[i], 64, 64);
            products_are_bounded(q[1], n[4 + i], 64, 64);
            products_are_bounded(q[2], n[8 + i], 64, 64);
            assert(-64 <= n[12 + i] <= 64);
        }
    }
    points_are_taken_along_the_axes(a, transformed(b, p), m, v, 64, 0x4000);
    small_transforms_multiply_exactly(a, b, m, n, 64, 64);
    let c = applied_to_columns(m, n);
    assert(within(c, 0x4000)) by {
        assert forall|i: int| 0 <= i < 16 implies -0x4000 <= #[trigger] c[i] <= 0x4000 by {
            let k = i / 4 * 4;
            products_are_bounded(n[k], m[i % 4], 64, 64);
            products_are_bounded(n[k + 1], m[4 + i % 4], 64, 64);
            products_are_bounded(n[k + 2], m[8 + i % 4], 64, 64);
            products_are_bounded(n[k + 3], m[12 + i % 4], 64, 64);
        }
    }
    points_are_taken_along_the_axes(matrix_product(a, b), p, c, q, 0x4000, 64);
    one_row((m[0], m[4], m[8], m[12]), n, q);
    one_row((m[1], m[5], m[9], m[13]), n, q);
    one_row((m[2], m[6], m[10], m[14]), n, q);
    assert(taken(c, q) =~= taken(m, v));
}

/// The origin of a product is where the first transform takes the origin of the second.
/// This needs no whole numbers.
pub proof fn products_take_the_origin_along(a: Seq<u32>, b: Seq<u32>)
    requires
        a.len() == 16,
        b.len() == 16,
        b[15] == single::ONE_BITS,
        !single::is_nan(a[12]),
        !single::is_nan(a[13]),
        !single::is_nan(a[14]),
    ensures
        matrix_product(a, b).subrange(12, 15) == transformed(a, b.subrange(12, 15)),
{
    exact::products_with_one(a[12]);
    exact::products_with_one(a[13]);
    exact::products_with_one(a[14]);
    assert(matrix_product(a, b).subrange(12, 15) =~= transformed(a, b.subrange(12, 15)));
}

/// The determinant in whole numbers: the products along the three falling diagonals less
/// those along the three rising ones.
pub open spec fn diagonal_products(n: Seq<int>) -> int {
    n[0] * n[5] * n[10] + n[4] * n[9] * n[2] + n[8] * n[1] * n[6] - n[8] * n[5] * n[2] - n[4] * n[1]
        * n[10] - n[0] * n[9] * n[6]
}

proof fn crossed(
    a: (u32, u32, u32, u32),
    n: (int, int, int, int),
)
    requires
        exact::stands_for(a.0, n.0, 0),
        exact::stands_for(a.1, n.1, 0),
        exact::stands_for(a.2, n.2, 0),
        exact::stands_for(a.3, n.3, 0),
        -64 <= n.0 <= 64,
        -64 <= n.1 <= 64,
        -64 <= n.2 <= 64,
        -64 <= n.3 <= 64,
    ensures
        exact::stands_for(
            difference(arith::product(a.0, a.1), arith::product(a.2, a.3)),
            n.0 * n.1 - n.2 * n.3,
            0,
        ),
        -0x2000 <= n.0 * n.1 - n.2 * n.3 <= 0x2000,
{
    products_are_bounded(n.0, n.1, 64, 64);
    products_are_bounded(n.2, n.3, 64, 64);
    exact::products(a.0, a.1, n.0, n.1, 0, 0);
    exact::products(a.2, a.3, n.2, n.3, 0, 0);
    exact::differences(
        arith::product(a.0, a.1),
        arith::product(a.2, a.3),
        n.0 * n.1,
        n.2 * n.3,
        0,
    );
}

/// The determinant of the rotation of a transform of small whole numbers is exact.
#[verifier::rlimit(50)]
pub proof fn small_determinants_are_exact(m: Seq<u32>, n: Seq<int>)
    requires
        cells_are(m, n),
        within(n, 64),
    ensures
        exact::stands_for(determinant(m), diagonal_products(n), 0),
{
    assert(forall|i: int| 0 <= i < 16 ==> exact::stands_for(#[trigger] m[i], n[i], 0));
    assert(forall|i: int| 0 <= i < 16 ==> -64 <= #[trigger] n[i] <= 64);
    crossed((m[5], m[10], m[6], m[9]), (n[5], n[10], n[6], n[9]));
    crossed((m[1], m[10], m[2], m[9]), (n[1], n[10], n[2], n[9]));
    crossed((m[1], m[6], m[2], m[5]), (n[1], n[6], n[2], n[5]));
    let x = difference(arith::product(m[5], m[10]), arith::product(m[6], m[9]));
    let y = difference(arith::product(m[1], m[10]), arith::product(m[2], m[9]));
    let z = difference(arith::product(m[1], m[6]), arith::product(m[2], m[5]));
    let (u, v, w) = (
        n[5] * n[10] - n[6] * n[9],
        n[1] * n[10] - n[2] * n[9],
        n[1] * n[6] - n[2] * n[5],
    );
    products_are_bounded(n[0], u, 64, 0x2000);
    products_are_bounded(n[4], v, 64, 0x2000);
    products_are_bounded(n[8], w, 64, 0x2000);
    exact::products(m[0], x, n[0], u, 0, 0);
    exact::products(m[4], y, n[4], v, 0, 0);
    exact::products(m[8], z, n[8], w, 0, 0);
    exact::differences(arith::product(m[0], x), arith::product(m[4], y), n[0] * u, n[4] * v, 0);
    exact::sums(
        difference(arith::product(m[0], x), arith::product(m[4], y)),
        arith::product(m[8], z),
        n[0] * u - n[4] * v,
        n[8] * w,
        0,
    );
    let (a, b, c) = (n[0], n[4], n[8]);
    let (d, e, f) = (n[1], n[5], n[9]);
    let (g, h, k) = (n[2], n[6], n[10]);
    assert(a * (e * k - h * f) == a * e * k - a * f * h) by (nonlinear_arith);
    assert(b * (d * k - g * f) == b * d * k - b * f * g) by (nonlinear_arith);
    assert(c * (d * h - g * e) == c * d * h - c * e * g) by (nonlinear_arith);
}

} // verus!
