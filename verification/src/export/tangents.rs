//! Tangents of a mesh: which meshes have them, and their average at each vertex.
use vstd::prelude::*;
use vstd::arithmetic::power2::*;

use crate::arith;
use crate::exact;
use crate::single;

verus! {

/// Whether a mesh has triangles and vertices, and as many normals and texture
/// coordinates as positions.
pub open spec fn is_triangle_mesh(positions: int, normals: int, uvs: int, indices: Seq<u32>) -> bool {
    &&& indices.len() > 0 && indices.len() % 3 == 0
    &&& positions > 0
    &&& normals == positions && uvs == positions
}

/// Checks whether tangents can be computed: there is at least one triangle and at least
/// one vertex, and the vertex arrays agree.
pub fn has_tangent_space(positions: usize, normals: usize, uvs: usize, indices: &[u32]) -> (r: bool)
    ensures
        r == is_triangle_mesh(positions as int, normals as int, uvs as int, indices@),
{
    indices.len() > 0 && indices.len() % 3 == 0 && positions > 0 && normals == positions && uvs
        == positions
}

/// Number of triangles.
pub fn num_faces(indices: &[u32]) -> (r: usize)
    ensures
        r == indices@.len() / 3,
{
    indices.len() / 3
}

/// The vertex at a corner of a triangle.
pub open spec fn corner(indices: Seq<u32>, face: int, vert: int) -> u32 {
    indices[face * 3 + vert]
}

/// The vertex at a corner of a triangle.
pub fn vert_index(indices: &[u32], face: usize, vert: usize) -> (r: u32)
    requires
        face < indices@.len() / 3,
        vert < 3,
    ensures
        r == corner(indices@, face as int, vert as int),
{
    assert(face * 3 + vert < indices.len());
    indices[face * 3 + vert]
}

// ---- Averages ---------------------------------------------------------------

/// Bit pattern of 1e-12.
pub const TINY_BITS: u32 = 0x2B8C_BCCC;

/// Bit pattern of -1.
pub const MINUS_ONE_BITS: u32 = 0xBF80_0000;

/// The square of the length of a vector.
pub open spec fn length_squared(x: u32, y: u32, z: u32) -> u32 {
    arith::sum(arith::sum(arith::product(x, x), arith::product(y, y)), arith::product(z, z))
}

/// The tangent of a vertex: the average of those of its corners with length one, and the
/// sign of its handedness. Where corners cancel out, it points along X. A vertex without
/// corners has a zero tangent.
pub open spec fn averaged(sums: Seq<u32>, count: u32) -> Seq<u32> {
    if count == 0 {
        seq![0u32, 0u32, 0u32, single::ONE_BITS]
    } else {
        let share = arith::quotient(single::ONE_BITS, arith::integer_form(count));
        let x = arith::product(sums[0], share);
        let y = arith::product(sums[1], share);
        let z = arith::product(sums[2], share);
        let square = length_squared(x, y, z);
        let sign = if single::is_nan(sums[3]) || arith::is_less(sums[3], 0) {
            MINUS_ONE_BITS
        } else {
            single::ONE_BITS
        };
        if arith::is_less(TINY_BITS, square) {
            let scale = arith::quotient(single::ONE_BITS, arith::root(square));
            seq![
                arith::product(x, scale),
                arith::product(y, scale),
                arith::product(z, scale),
                sign,
            ]
        } else {
            seq![single::ONE_BITS, 0u32, 0u32, sign]
        }
    }
}

/// Averages the tangents of the corners at a vertex, given their sum and number.
pub fn average_tangent(sums: &[u32; 4], count: u32) -> (r: [u32; 4])
    ensures
        r@ == averaged(sums@, count),
{
    if count == 0 {
        let r: [u32; 4] = [0, 0, 0, single::ONE_BITS];
        assert(r@ =~= averaged(sums@, count));
        return r;
    }
    let share: u32 = arith::divide_singles(single::ONE_BITS, arith::from_u32(count));
    let x: u32 = arith::multiply_singles(sums[0], share);
    let y: u32 = arith::multiply_singles(sums[1], share);
    let z: u32 = arith::multiply_singles(sums[2], share);
    let square: u32 = arith::add_singles(
        arith::add_singles(arith::multiply_singles(x, x), arith::multiply_singles(y, y)),
        arith::multiply_singles(z, z),
    );
    let is_number = sums[3] % 0x8000_0000 <= single::INFINITY_BITS;
    let sign: u32 = if !is_number || arith::less_than(sums[3], 0) {
        MINUS_ONE_BITS
    } else {
        single::ONE_BITS
    };
    let r: [u32; 4] = if arith::less_than(TINY_BITS, square) {
        let scale: u32 = arith::divide_singles(single::ONE_BITS, arith::square_root(square));
        [
            arith::multiply_singles(x, scale),
            arith::multiply_singles(y, scale),
            arith::multiply_singles(z, scale),
            sign,
        ]
    } else {
        [single::ONE_BITS, 0, 0, sign]
    };
    assert(r@ =~= averaged(sums@, count));
    r
}

/// Sums of the tangents of corners, for every vertex.
#[derive(Debug)]
pub struct TangentSums {
    pub sums: Vec<[u32; 4]>,
    pub counts: Vec<u32>,
}

impl TangentSums {
    /// Whether there is a sum and a count for every vertex.
    pub open spec fn is_valid(&self) -> bool {
        self.sums@.len() == self.counts@.len()
    }

    /// No tangents yet for a number of vertices.
    pub fn new(vertices: usize) -> (r: TangentSums)
        ensures
            r.is_valid(),
            r.sums@.len() == vertices,
            forall|v: int| 0 <= v < vertices ==> (#[trigger] r.counts@[v]) == 0,
            forall|v: int|
                0 <= v < vertices ==> (#[trigger] r.sums@[v])@ == seq![0u32, 0u32, 0u32, 0u32],
    {
        let mut sums: Vec<[u32; 4]> = Vec::new();
        let mut counts: Vec<u32> = Vec::new();
        let mut i: usize = 0;
        while i < vertices
            invariant
                i <= vertices,
                sums@.len() == i,
                counts@.len() == i,
                forall|v: int| 0 <= v < i ==> (#[trigger] counts@[v]) == 0,
                forall|v: int|
                    0 <= v < i ==> (#[trigger] sums@[v])@ == seq![0u32, 0u32, 0u32, 0u32],
            decreases vertices - i,
        {
            let zero: [u32; 4] = [0, 0, 0, 0];
            assert(zero@ =~= seq![0u32, 0u32, 0u32, 0u32]);
            sums.push(zero);
            counts.push(0);
            i += 1;
        }
        TangentSums { sums, counts }
    }

    /// Adds the tangent of a corner to those of its vertex. Counts stop at the largest
    /// one.
    pub fn add_corner(&mut self, vertex: usize, tangent: [u32; 4])
        requires
            old(self).is_valid(),
            vertex < old(self).sums@.len(),
        ensures
            final(self).is_valid(),
            final(self).sums@.len() == old(self).sums@.len(),
            forall|v: int|
                0 <= v < old(self).sums@.len() && v != vertex ==> (#[trigger] final(self).sums@[v])
                    == old(self).sums@[v],
            forall|k: int|
                0 <= k < 4 ==> (#[trigger] final(self).sums@[vertex as int]@[k]) == arith::sum(
                    old(self).sums@[vertex as int]@[k],
                    tangent@[k],
                ),
            final(self).counts@ == old(self).counts@.update(
                vertex as int,
                if old(self).counts@[vertex as int] < u32::MAX {
                    (old(self).counts@[vertex as int] + 1) as u32
                } else {
                    u32::MAX
                },
            ),
    {
        let before: [u32; 4] = self.sums[vertex];
        let after: [u32; 4] = [
            arith::add_singles(before[0], tangent[0]),
            arith::add_singles(before[1], tangent[1]),
            arith::add_singles(before[2], tangent[2]),
            arith::add_singles(before[3], tangent[3]),
        ];
        self.sums.set(vertex, after);
        let count: u32 = self.counts[vertex];
        self.counts.set(
            vertex,
            if count < u32::MAX {
                count + 1
            } else {
                u32::MAX
            },
        );
    }

    /// Averages the tangents of every vertex.
    pub fn averages(&self) -> (r: Vec<[u32; 4]>)
        requires
            self.is_valid(),
        ensures
            r@.len() == self.sums@.len(),
            forall|v: int|
                0 <= v < r@.len() ==> (#[trigger] r@[v])@ == averaged(
                    self.sums@[v]@,
                    self.counts@[v],
                ),
    {
        let mut out: Vec<[u32; 4]> = Vec::new();
        let mut i: usize = 0;
        while i < self.sums.len()
            invariant
                i <= self.sums.len(),
                self.is_valid(),
                out@.len() == i,
                forall|v: int|
                    0 <= v < i ==> (#[trigger] out@[v])@ == averaged(
                        self.sums@[v]@,
                        self.counts@[v],
                    ),
            decreases self.sums.len() - i,
        {
            out.push(average_tangent(&self.sums[i], self.counts[i]));
            i += 1;
        }
        out
    }
}

/// The handedness of an average is that of the sum, and a vertex without corners has no
/// tangent.
pub proof fn averages_have_a_handedness(sums: Seq<u32>, count: u32)
    requires
        sums.len() == 4,
    ensures
        averaged(sums, count).len() == 4,
        count > 0 && arith::is_less(sums[3], 0) ==> averaged(sums, count)[3] == 0xBF80_0000,
        count > 0 && !single::is_nan(sums[3]) && !arith::is_less(sums[3], 0) ==> averaged(
            sums,
            count,
        )[3] == single::ONE_BITS,
        count == 0 ==> averaged(sums, count) == seq![0u32, 0u32, 0u32, single::ONE_BITS],
{
}

#[verifier::rlimit(50)]
proof fn roots_of_one()
    ensures
        arith::root(single::ONE_BITS) == single::ONE_BITS,
{
    exact::one();
    lemma2_to64();
    let n = pow2(149) * pow2(149);
    lemma_pow2_adds(149, 149);
    lemma_pow2_adds(46, 252);
    lemma_pow2_adds(23, 23);
    lemma_pow2_adds(23, 126);
    let unit = pow2(252) as int;
    lemma_pow2_pos(252);
    assert(n == 0x4000_0000_0000 * unit);
    assert((2 * 0x80_0000 - 1) * (2 * 0x80_0000 - 1) * unit < 4 * n) by (nonlinear_arith)
        requires
            n == 0x4000_0000_0000 * unit,
            unit > 0,
    ;
    assert(4 * n < (2 * 0x80_0000 + 1) * (2 * 0x80_0000 + 1) * unit) by (nonlinear_arith)
        requires
            n == 0x4000_0000_0000 * unit,
            unit > 0,
    ;
    assert(arith::is_rounded_root(arith::size_of(single::ONE_BITS) * pow2(149), 0x80_0000, 126));
    lemma_pow2_pos(149);
    assert(arith::is_root(single::ONE_BITS, single::ONE_BITS));
    let r = arith::root(single::ONE_BITS);
    assert(arith::is_root(single::ONE_BITS, r));
    let (m, g) = choose|m: int, g: int|
        #![trigger arith::is_rounded_root(arith::size_of(single::ONE_BITS) * pow2(149), m, g)]
        arith::is_rounded_root(arith::size_of(single::ONE_BITS) * pow2(149), m, g)
            && arith::size_of(r) == m * pow2(g as nat);
    arith::rounded_roots_are_unique(
        arith::size_of(single::ONE_BITS) * pow2(149),
        m,
        g,
        0x80_0000,
        126,
    );
    exact::ones_are_below_the_limit();
    arith::numbers_are_unique(r, single::ONE_BITS, false, pow2(149) as int);
}

/// The average of equal tangents along an axis is that tangent.
#[verifier::rlimit(50)]
pub proof fn equal_tangents_average_to_themselves(sums: Seq<u32>, count: u32, j: nat, axis: int)
    requires
        sums.len() == 4,
        j <= 23,
        count == pow2(j),
        0 <= axis < 3,
        exact::stands_for(sums[axis], count as int, 0),
        forall|k: int| 0 <= k < 3 && k != axis ==> #[trigger] sums[k] == 0,
    ensures
        averaged(sums, count)[axis] == single::ONE_BITS,
        forall|k: int| 0 <= k < 3 && k != axis ==> #[trigger] averaged(sums, count)[k] == 0,
{
    lemma2_to64();
    if j < 23 {
        lemma_pow2_strictly_increases(j, 23);
    }
    lemma_pow2_pos(j);
    exact::one();
    exact::integers(count);
    exact::quotients_by_powers(single::ONE_BITS, arith::integer_form(count), 1, 0, j);
    let share = arith::quotient(single::ONE_BITS, arith::integer_form(count));
    exact::signs_of_numbers(share, 1, j);
    exact::products(sums[axis], share, count as int, 1, 0, j);
    let along = arith::product(sums[axis], share);
    exact::extended(single::ONE_BITS, 1, 0, j);
    exact::patterns_are_unique(along, single::ONE_BITS, count as int, j);
    exact::products_of_zero(share);
    exact::products_of_zero(0);
    exact::zero(0);
    exact::products_with_one(single::ONE_BITS);
    let (x, y, z) = (
        arith::product(sums[0], share),
        arith::product(sums[1], share),
        arith::product(sums[2], share),
    );
    assert(axis != 0 ==> sums[0] == 0);
    assert(axis != 1 ==> sums[1] == 0);
    assert(axis != 2 ==> sums[2] == 0);
    let f = |k: int| if k == axis { 1int } else { 0int };
    exact::sums(arith::product(x, x), arith::product(y, y), f(0), f(1), 0);
    exact::sums(
        arith::sum(arith::product(x, x), arith::product(y, y)),
        arith::product(z, z),
        f(0) + f(1),
        f(2),
        0,
    );
    let square = length_squared(x, y, z);
    exact::patterns_are_unique(square, single::ONE_BITS, 1, 0);
    single::scaled_magnitude_is_monotone(TINY_BITS, single::ONE_BITS);
    roots_of_one();
    lemma_pow2_pos(149);
    exact::quotients_of_equals(single::ONE_BITS);
    exact::products_of_zero(single::ONE_BITS);
}

/// The corners of the triangles, one triangle after the other, are the indices in order.
pub proof fn corners_are_the_indices(indices: Seq<u32>, i: int)
    requires
        0 <= i < indices.len(),
    ensures
        corner(indices, i / 3, i % 3) == indices[i],
        i / 3 * 3 + 3 <= indices.len() ==> i / 3 < indices.len() / 3,
{
}

} // verus!
