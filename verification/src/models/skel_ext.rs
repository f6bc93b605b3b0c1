//! Reader for `.skel_ext` files: decorative prop placements per hull segment.
//!
//! ```text
//! Record array, 0x20 bytes per slot:
//!   +0x00  u16 type    0 or 1
//!   +0x02  u16 count   entries in p0 and p1
//!   +0x04  u32 pad
//!   +0x08  u64 p0      offset of u32[count], one hash per placement
//!   +0x10  u64 p1      offset of u32[count], hash of the parent bone
//!   +0x18  u64 p2      offset of (count - 1) matrices of 64 bytes and a 32-byte trailer
//! ```
//!
//! Matrices are column-major, left-handed, one unit being 15 metres. Their cells
//! are kept as single-precision bit patterns (see [`crate::single`]).
use std::collections::HashMap;
use std::collections::HashSet;
use vstd::prelude::*;

use crate::arith;
use crate::bytes;
use crate::single;
use crate::text;

verus! {

/// Bytes per slot of the record array.
pub const RECORD_STRIDE: usize = 0x20;

/// Bytes per matrix in the p2 region.
pub const MATRIX_SIZE: usize = 64;

/// Bytes of the trailer after the matrices of one record.
pub const TRAILER_SIZE: usize = 32;

/// How far into the file slots are looked for.
pub const HEADER_SCAN_LIMIT: usize = 0x20000;

/// Largest `count` that a record may have.
pub const MAX_RECORD_COUNT: u16 = 10_000;

/// Hash of the bone name "Scene Root", the parent of most placements.
pub const SCENE_ROOT_HASH: u32 = 0x10C3_0510;

/// Why a `.skel_ext` file was refused.
#[derive(Debug, Clone, Copy, PartialEq, Eq, Structural)]
pub enum SkelExtError {
    /// Not even one record slot fits.
    TooShort { size: usize },
    /// No slot holds a plausible record.
    NoRecords,
}

/// The message of an error.
pub open spec fn error_message(e: SkelExtError) -> Seq<char> {
    match e {
        SkelExtError::TooShort { size } => "skel_ext file too short ("@ + text::decimal(
            size as int,
        ) + " bytes, need >= "@ + text::decimal(RECORD_STRIDE as int) + ")"@,
        SkelExtError::NoRecords => "no valid records found in header"@,
    }
}

impl SkelExtError {
    /// The message of an error.
    pub fn message(&self) -> (r: String)
        ensures
            r@ == error_message(*self),
    {
        match self {
            SkelExtError::TooShort { size } => {
                let mut out = text::concat(
                    "skel_ext file too short (",
                    text::to_decimal(*size as u64).as_str(),
                );
                out.append(" bytes, need >= ");
                out.append(text::to_decimal(RECORD_STRIDE as u64).as_str());
                out.append(")");
                out
            },
            SkelExtError::NoRecords => text::copy("no valid records found in header"),
        }
    }
}

/// One slot of the record array.
#[derive(Debug, Clone, Copy, PartialEq, Eq, Structural)]
pub struct SkelExtRecord {
    pub file_offset: u64,
    pub type_: u16,
    pub count: u16,
    pub p0: u64,
    pub p1: u64,
    pub p2: u64,
}

/// One affine matrix of a record, with the hashes that go with it.
#[derive(Debug, Clone, Copy)]
pub struct SkelExtPlacement {
    pub record_offset: u64,
    pub record_type: u16,
    pub record_count: u16,
    pub matrix_index: u32,
    pub p0_hash: u32,
    pub p1_hash: u32,
    pub matrix: [u32; 16],
}

/// A placement with its matrix as a sequence of cells.
pub struct PlacementView {
    pub record_offset: u64,
    pub record_type: u16,
    pub record_count: u16,
    pub matrix_index: u32,
    pub p0_hash: u32,
    pub p1_hash: u32,
    pub matrix: Seq<u32>,
}

impl View for SkelExtPlacement {
    type V = PlacementView;

    open spec fn view(&self) -> PlacementView {
        PlacementView {
            record_offset: self.record_offset,
            record_type: self.record_type,
            record_count: self.record_count,
            matrix_index: self.matrix_index,
            p0_hash: self.p0_hash,
            p1_hash: self.p1_hash,
            matrix: self.matrix@,
        }
    }
}

pub open spec fn placement_views(s: Seq<SkelExtPlacement>) -> Seq<PlacementView> {
    Seq::new(s.len(), |i: int| s[i]@)
}

impl SkelExtPlacement {
    /// World position in native units: the translation column.
    pub fn position(&self) -> (r: [u32; 3])
        ensures
            r@ == self.matrix@.subrange(12, 15),
    {
        let r: [u32; 3] = [self.matrix[12], self.matrix[13], self.matrix[14]];
        assert(r@ =~= self.matrix@.subrange(12, 15));
        r
    }
}

/// Reads a 16-bit field, if it lies inside the buffer.
pub fn read_u16_le(buf: &[u8], off: usize) -> (r: Option<u16>)
    ensures
        r == if off + 2 <= buf@.len() {
            Some(bytes::u16_at(buf@, off as int))
        } else {
            None
        },
{
    if buf.len() >= 2 && off <= buf.len() - 2 {
        Some(bytes::get_u16(buf, off))
    } else {
        None
    }
}

/// Reads a 32-bit field, if it lies inside the buffer.
pub fn read_u32_le(buf: &[u8], off: usize) -> (r: Option<u32>)
    ensures
        r == if off + 4 <= buf@.len() {
            Some(bytes::u32_at(buf@, off as int))
        } else {
            None
        },
{
    if buf.len() >= 4 && off <= buf.len() - 4 {
        Some(bytes::get_u32(buf, off))
    } else {
        None
    }
}

/// Reads a 64-bit field, if it lies inside the buffer.
pub fn read_u64_le(buf: &[u8], off: usize) -> (r: Option<u64>)
    ensures
        r == if off + 8 <= buf@.len() {
            Some(bytes::u64_at(buf@, off as int))
        } else {
            None
        },
{
    if buf.len() >= 8 && off <= buf.len() - 8 {
        Some(bytes::get_u64(buf, off))
    } else {
        None
    }
}

/// The slot at byte `off`, read as a record.
pub open spec fn record_at(b: Seq<u8>, off: int) -> SkelExtRecord {
    SkelExtRecord {
        file_offset: off as u64,
        type_: bytes::u16_at(b, off),
        count: bytes::u16_at(b, off + 2),
        p0: bytes::u64_at(b, off + 8),
        p1: bytes::u64_at(b, off + 16),
        p2: bytes::u64_at(b, off + 24),
    }
}

/// Whether a record is plausible in a file of `size` bytes: a known type, a
/// count in range and three offsets that point into the file.
pub open spec fn is_plausible(r: SkelExtRecord, size: int) -> bool {
    &&& r.type_ <= 1
    &&& 1 <= r.count <= MAX_RECORD_COUNT
    &&& 0 < r.p0 < size
    &&& 0 < r.p1 < size
    &&& 0 < r.p2 < size
}

pub open spec fn plausible_in(size: int) -> spec_fn(SkelExtRecord) -> bool {
    |r: SkelExtRecord| is_plausible(r, size)
}

pub open spec fn starts_before(limit: u64) -> spec_fn(SkelExtRecord) -> bool {
    |r: SkelExtRecord| r.file_offset < limit
}

/// Number of slots that are looked at in a file of `size` bytes.
pub open spec fn slot_count(size: int) -> int {
    (if size < HEADER_SCAN_LIMIT { size } else { HEADER_SCAN_LIMIT as int }) / 0x20
}

/// The first `n` slots.
pub open spec fn slots(b: Seq<u8>, n: int) -> Seq<SkelExtRecord> {
    Seq::new(n as nat, |k: int| record_at(b, 0x20 * k))
}

/// The plausible records, in file order.
pub open spec fn candidate_records(b: Seq<u8>) -> Seq<SkelExtRecord> {
    slots(b, slot_count(b.len() as int)).filter(plausible_in(b.len() as int))
}

/// The lowest p0 offset of some records.
pub open spec fn first_payload(recs: Seq<SkelExtRecord>) -> u64
    decreases recs.len(),
{
    if recs.len() == 0 {
        u64::MAX
    } else {
        let rest = first_payload(recs.drop_last());
        if recs.last().p0 < rest {
            recs.last().p0
        } else {
            rest
        }
    }
}

/// The records of a file: the plausible slots that lie before every payload.
pub open spec fn records_of(b: Seq<u8>) -> Seq<SkelExtRecord> {
    let all = candidate_records(b);
    all.filter(starts_before(first_payload(all)))
}

proof fn filter_take_step<T>(s: Seq<T>, k: int, p: spec_fn(T) -> bool)
    requires
        0 <= k < s.len(),
    ensures
        s.take(k + 1).filter(p) == if p(s[k]) {
            s.take(k).filter(p).push(s[k])
        } else {
            s.take(k).filter(p)
        },
{
    reveal(Seq::filter);
    assert(s.take(k + 1).drop_last() =~= s.take(k));
}

/// Reads the record array at the start of the file.
pub fn parse_records(buf: &[u8]) -> (r: Vec<SkelExtRecord>)
    ensures
        r@ == records_of(buf@),
{
    let size: usize = buf.len();
    let scan_limit: usize = if size < HEADER_SCAN_LIMIT {
        size
    } else {
        HEADER_SCAN_LIMIT
    };
    let n: usize = scan_limit / RECORD_STRIDE;
    let mut recs: Vec<SkelExtRecord> = Vec::new();
    let mut first: u64 = u64::MAX;
    let ghost all = slots(buf@, n as int);
    let ghost pred = plausible_in(size as int);
    let mut k: usize = 0;
    assert(all.take(0).filter(pred) =~= Seq::empty()) by {
        reveal(Seq::filter);
    }
    while k < n
        invariant
            size == buf@.len(),
            n * 0x20 <= size,
            n <= 0x1000,
            k <= n,
            all == slots(buf@, n as int),
            pred == plausible_in(size as int),
            recs@ == all.take(k as int).filter(pred),
            first == first_payload(recs@),
        decreases n - k,
    {
        let off: usize = k * RECORD_STRIDE;
        let rec = SkelExtRecord {
            file_offset: off as u64,
            type_: bytes::get_u16(buf, off),
            count: bytes::get_u16(buf, off + 2),
            p0: bytes::get_u64(buf, off + 8),
            p1: bytes::get_u64(buf, off + 16),
            p2: bytes::get_u64(buf, off + 24),
        };
        proof {
            filter_take_step(all, k as int, pred);
        }
        if rec.type_ <= 1 && rec.count >= 1 && rec.count <= MAX_RECORD_COUNT && rec.p0 > 0 && rec.p0
            < size as u64 && rec.p1 > 0 && rec.p1 < size as u64 && rec.p2 > 0 && rec.p2
            < size as u64 {
            let ghost before = recs@;
            recs.push(rec);
            assert(recs@.drop_last() =~= before);
            if rec.p0 < first {
                first = rec.p0;
            }
        }
        k += 1;
    }
    assert(all.take(n as int) =~= all);
    let mut out: Vec<SkelExtRecord> = Vec::new();
    let ghost keep = starts_before(first);
    assert(recs@.take(0).filter(keep) =~= Seq::empty()) by {
        reveal(Seq::filter);
    }
    let mut j: usize = 0;
    while j < recs.len()
        invariant
            j <= recs.len(),
            keep == starts_before(first),
            out@ == recs@.take(j as int).filter(keep),
        decreases recs.len() - j,
    {
        proof {
            filter_take_step(recs@, j as int, keep);
        }
        if recs[j].file_offset < first {
            out.push(recs[j]);
        }
        j += 1;
    }
    assert(recs@.take(recs@.len() as int) =~= recs@);
    out
}

/// The `i`-th cell of the matrix at byte `off`.
pub open spec fn matrix_at(b: Seq<u8>, off: int) -> Seq<u32> {
    Seq::new(16, |i: int| bytes::u32_at(b, off + 4 * i))
}

/// Whether the bottom row is (0, 0, 0, 1) up to the tolerance.
pub open spec fn has_affine_row(m: Seq<u32>) -> bool {
    let milli = single::scaled(single::MILLI_BITS);
    &&& -milli < single::scaled(m[3]) < milli
    &&& -milli < single::scaled(m[7]) < milli
    &&& -milli < single::scaled(m[11]) < milli
    &&& -milli < single::scaled(m[15]) - single::scaled(single::ONE_BITS) < milli
}

/// True if a column-major matrix has the bottom row of an affine transform.
pub fn is_affine(m: &[u32; 16]) -> (r: bool)
    ensures
        r == has_affine_row(m@),
{
    proof {
        single::magnitudes_are_nonnegative();
    }
    single::is_near_zero(m[3]) && single::is_near_zero(m[7]) && single::is_near_zero(m[11])
        && single::is_near_one(m[15])
}

/// Reads a matrix, if it lies inside the buffer.
pub fn read_matrix(buf: &[u8], off: usize) -> (r: Option<[u32; 16]>)
    ensures
        r is Some <==> off + MATRIX_SIZE <= buf@.len(),
        r matches Some(m) ==> m@ == matrix_at(buf@, off as int),
{
    if buf.len() < MATRIX_SIZE || off > buf.len() - MATRIX_SIZE {
        return None;
    }
    let mut m: [u32; 16] = [0u32; 16];
    let mut i: usize = 0;
    while i < 16
        invariant
            i <= 16,
            off + MATRIX_SIZE <= buf.len(),
            forall|k: int| 0 <= k < i ==> m@[k] == bytes::u32_at(buf@, off + 4 * k),
        decreases 16 - i,
    {
        m[i] = bytes::get_u32(buf, off + i * 4);
        i += 1;
    }
    assert(m@ =~= matrix_at(buf@, off as int));
    Some(m)
}

/// The `i`-th matrix of a record with its hashes.
pub open spec fn placement_at(b: Seq<u8>, r: SkelExtRecord, i: int) -> PlacementView {
    PlacementView {
        record_offset: r.file_offset,
        record_type: r.type_,
        record_count: r.count,
        matrix_index: i as u32,
        p0_hash: bytes::u32_at(b, r.p0 + 4 * i),
        p1_hash: bytes::u32_at(b, r.p1 + 4 * i),
        matrix: matrix_at(b, r.p2 + MATRIX_SIZE * i),
    }
}

/// Whether the three arrays of a record lie inside a file of `size` bytes.
pub open spec fn arrays_fit(r: SkelExtRecord, size: int) -> bool {
    &&& r.p0 + 4 * r.count <= size
    &&& r.p1 + 4 * r.count <= size
    &&& r.p2 + MATRIX_SIZE * (r.count - 1) <= size
}

pub open spec fn affine_placement() -> spec_fn(PlacementView) -> bool {
    |p: PlacementView| has_affine_row(p.matrix)
}

/// All matrices of a record, affine or not.
pub open spec fn matrices_of(b: Seq<u8>, r: SkelExtRecord) -> Seq<PlacementView> {
    Seq::new((r.count - 1) as nat, |i: int| placement_at(b, r, i))
}

/// The placements of one record: its affine matrices. A record with fewer than
/// two entries, or with an array past the end of the file, has none.
pub open spec fn placements_of(b: Seq<u8>, r: SkelExtRecord) -> Seq<PlacementView> {
    if r.count < 2 || !arrays_fit(r, b.len() as int) {
        Seq::empty()
    } else {
        matrices_of(b, r).filter(affine_placement())
    }
}

/// The placements of some records, record by record.
pub open spec fn all_placements(b: Seq<u8>, recs: Seq<SkelExtRecord>) -> Seq<PlacementView>
    decreases recs.len(),
{
    if recs.len() == 0 {
        Seq::empty()
    } else {
        all_placements(b, recs.drop_last()) + placements_of(b, recs.last())
    }
}

/// Appends the placements of one record to `out`.
fn collect_record(buf: &[u8], r: &SkelExtRecord, out: &mut Vec<SkelExtPlacement>)
    ensures
        placement_views(final(out)@) == placement_views(old(out)@) + placements_of(buf@, *r),
{
    let ghost before = placement_views(out@);
    let size: u64 = buf.len() as u64;
    let c: u64 = r.count as u64;
    if c < 2 {
        assert(before + placements_of(buf@, *r) =~= before);
        return;
    }
    if size < c * 4 || r.p0 > size - c * 4 || r.p1 > size - c * 4 || size < (c - 1) * 64 || r.p2
        > size - (c - 1) * 64 {
        assert(!arrays_fit(*r, buf@.len() as int));
        assert(before + placements_of(buf@, *r) =~= before);
        return;
    }
    let n: usize = (c - 1) as usize;
    let ghost all = matrices_of(buf@, *r);
    let ghost pred = affine_placement();
    assert(all.take(0).filter(pred) =~= Seq::empty()) by {
        reveal(Seq::filter);
    }
    assert(before + all.take(0).filter(pred) =~= before);
    let mut i: usize = 0;
    while i < n
        invariant
            i <= n,
            n == r.count - 1,
            r.count >= 2,
            size == buf@.len(),
            buf@.len() == buf.len(),
            arrays_fit(*r, size as int),
            all == matrices_of(buf@, *r),
            pred == affine_placement(),
            placement_views(out@) == before + all.take(i as int).filter(pred),
        decreases n - i,
    {
        proof {
            filter_take_step(all, i as int, pred);
        }
        let cell: usize = r.p2 as usize + i * MATRIX_SIZE;
        match read_matrix(buf, cell) {
            Some(m) => {
                if is_affine(&m) {
                    let p = SkelExtPlacement {
                        record_offset: r.file_offset,
                        record_type: r.type_,
                        record_count: r.count,
                        matrix_index: i as u32,
                        p0_hash: bytes::get_u32(buf, r.p0 as usize + i * 4),
                        p1_hash: bytes::get_u32(buf, r.p1 as usize + i * 4),
                        matrix: m,
                    };
                    let ghost views = placement_views(out@);
                    out.push(p);
                    assert(p@ == all[i as int]);
                    assert(placement_views(out@) =~= views.push(p@));
                    assert(views.push(p@) =~= before + all.take(i as int).filter(pred).push(p@));
                }
            },
            None => {
                assert(false);
            },
        }
        i += 1;
    }
    assert(all.take(n as int) =~= all);
}

/// Reads all affine placements of a `.skel_ext` file.
pub fn parse_skel_ext(buf: &[u8]) -> (r: Result<Vec<SkelExtPlacement>, SkelExtError>)
    ensures
        match r {
            Err(SkelExtError::TooShort { size }) => size == buf@.len() && size < RECORD_STRIDE,
            Err(SkelExtError::NoRecords) => buf@.len() >= RECORD_STRIDE && records_of(buf@).len()
                == 0,
            Ok(out) => {
                &&& buf@.len() >= RECORD_STRIDE
                &&& records_of(buf@).len() > 0
                &&& placement_views(out@) == all_placements(buf@, records_of(buf@))
            },
        },
{
    if buf.len() < RECORD_STRIDE {
        return Err(SkelExtError::TooShort { size: buf.len() });
    }
    let recs = parse_records(buf);
    if recs.len() == 0 {
        return Err(SkelExtError::NoRecords);
    }
    let mut out: Vec<SkelExtPlacement> = Vec::new();
    let mut i: usize = 0;
    assert(placement_views(out@) =~= Seq::empty());
    while i < recs.len()
        invariant
            i <= recs.len(),
            placement_views(out@) == all_placements(buf@, recs@.take(i as int)),
        decreases recs.len() - i,
    {
        collect_record(buf, &recs[i], &mut out);
        assert(recs@.take(i + 1).drop_last() =~= recs@.take(i as int));
        i += 1;
    }
    assert(recs@.take(recs@.len() as int) =~= recs@);
    Ok(out)
}

/// The cells whose sign changes between left-handed and right-handed axes.
pub open spec fn flips_sign(i: int) -> bool {
    i == 2 || i == 6 || i == 8 || i == 9 || i == 14
}

/// A matrix in right-handed axes: Z basis and Z translation negated.
pub open spec fn z_negated(m: Seq<u32>) -> Seq<u32> {
    Seq::new(
        m.len(),
        |i: int|
            if flips_sign(i) {
                single::negated(m[i])
            } else {
                m[i]
            },
    )
}

/// Converts a matrix from native left-handed to right-handed axes.
pub fn negate_z_transform(m: [u32; 16]) -> (r: [u32; 16])
    ensures
        r@ == z_negated(m@),
{
    let r: [u32; 16] = [
        m[0],
        m[1],
        single::negate(m[2]),
        m[3],
        m[4],
        m[5],
        single::negate(m[6]),
        m[7],
        single::negate(m[8]),
        single::negate(m[9]),
        m[10],
        m[11],
        m[12],
        m[13],
        single::negate(m[14]),
        m[15],
    ];
    assert(r@ =~= z_negated(m@));
    r
}

/// Metres in one native unit: 15, in single precision.
pub const NATIVE_TO_METRES: u32 = 0x4170_0000;

/// A matrix with its translation in metres.
pub open spec fn in_metres(m: Seq<u32>) -> Seq<u32> {
    m.update(12, arith::product(m[12], NATIVE_TO_METRES)).update(
        13,
        arith::product(m[13], NATIVE_TO_METRES),
    ).update(14, arith::product(m[14], NATIVE_TO_METRES))
}

/// Converts the translation of a matrix to metres.
pub fn scale_to_metres(m: [u32; 16]) -> (r: [u32; 16])
    ensures
        r@ == in_metres(m@),
{
    let mut r: [u32; 16] = m;
    r[12] = arith::multiply_singles(r[12], NATIVE_TO_METRES);
    r[13] = arith::multiply_singles(r[13], NATIVE_TO_METRES);
    r[14] = arith::multiply_singles(r[14], NATIVE_TO_METRES);
    assert(r@ =~= in_metres(m@));
    r
}

/// Converts a matrix to right-handed axes and its translation to metres.
pub fn to_metric_glft(m: [u32; 16]) -> (r: [u32; 16])
    ensures
        r@ == in_metres(z_negated(m@)),
{
    scale_to_metres(negate_z_transform(m))
}

/// Converting twice restores the matrix.
pub proof fn negate_z_transform_is_an_involution(m: Seq<u32>)
    ensures
        z_negated(z_negated(m)) == m,
{
    assert forall|i: int| 0 <= i < m.len() implies #[trigger] z_negated(z_negated(m))[i]
        == m[i] by {
        single::negation_is_an_involution(m[i]);
    }
    assert(z_negated(z_negated(m)) =~= m);
}

/// Converting keeps an affine matrix affine.
pub proof fn negate_z_transform_keeps_affine_matrices(m: Seq<u32>)
    requires
        m.len() == 16,
    ensures
        has_affine_row(z_negated(m)) == has_affine_row(m),
{
}

proof fn filter_is_selective<T>(s: Seq<T>, p: spec_fn(T) -> bool)
    ensures
        forall|i: int| 0 <= i < s.filter(p).len() ==> p(#[trigger] s.filter(p)[i]) && s.contains(
            s.filter(p)[i],
        ),
    decreases s.len(),
{
    reveal(Seq::filter);
    if s.len() > 0 {
        filter_is_selective(s.drop_last(), p);
        assert forall|i: int| 0 <= i < s.filter(p).len() implies p(#[trigger] s.filter(p)[i])
            && s.contains(s.filter(p)[i]) by {
            let sub = s.drop_last().filter(p);
            if i < sub.len() {
                assert(s.filter(p)[i] == sub[i]);
                let k = choose|k: int| 0 <= k < s.drop_last().len() && s.drop_last()[k] == sub[i];
                assert(s[k] == sub[i]);
            } else {
                assert(s.filter(p)[i] == s[s.len() - 1]);
            }
        }
    }
}

proof fn first_payload_is_a_lower_bound(recs: Seq<SkelExtRecord>)
    ensures
        forall|i: int| 0 <= i < recs.len() ==> first_payload(recs) <= (#[trigger] recs[i]).p0,
    decreases recs.len(),
{
    if recs.len() > 0 {
        first_payload_is_a_lower_bound(recs.drop_last());
        assert forall|i: int| 0 <= i < recs.len() implies first_payload(recs)
            <= (#[trigger] recs[i]).p0 by {
            if i < recs.len() - 1 {
                assert(recs.drop_last()[i] == recs[i]);
            }
        }
    }
}

/// Every record of a file is plausible, stands in a slot of the scanned region,
/// and lies before the payload of every record.
pub proof fn records_are_plausible_and_precede_payloads(b: Seq<u8>, i: int, j: int)
    requires
        0 <= i < records_of(b).len(),
        0 <= j < records_of(b).len(),
    ensures
        is_plausible(records_of(b)[i], b.len() as int),
        exists|k: int|
            0 <= k < slot_count(b.len() as int) && records_of(b)[i] == #[trigger] record_at(
                b,
                0x20 * k,
            ),
        records_of(b)[i].file_offset < records_of(b)[j].p0,
{
    let all = candidate_records(b);
    let size = b.len() as int;
    let s = slots(b, slot_count(size));
    filter_is_selective(all, starts_before(first_payload(all)));
    filter_is_selective(s, plausible_in(size));
    first_payload_is_a_lower_bound(all);
    let ri = records_of(b)[i];
    let rj = records_of(b)[j];
    let ki = choose|k: int| 0 <= k < all.len() && all[k] == ri;
    let kj = choose|k: int| 0 <= k < all.len() && all[k] == rj;
    assert(all[ki] == ri && all[kj] == rj);
    assert(plausible_in(size)(all[ki]) && s.contains(all[ki]));
    let k = choose|k: int| 0 <= k < s.len() && s[k] == ri;
    assert(s[k] == record_at(b, 0x20 * k));
    assert(starts_before(first_payload(all))(ri));
}

/// A position rounded to a grid, in grid steps along X, Y and Z.
#[derive(Debug, Clone, Copy, PartialEq, Eq, Structural)]
pub struct GridCell {
    /// What else must agree for two placements to be one; 0 where only the position
    /// counts.
    pub tag: u32,
    pub x: i64,
    pub y: i64,
    pub z: i64,
}

/// Whether a cell occurs among the first `n`.
pub open spec fn seen_before(cells: Seq<GridCell>, n: int, c: GridCell) -> bool {
    exists|k: int| 0 <= k < n && #[trigger] cells[k] == c
}

/// The indices below `n` at which a cell occurs for the first time.
pub open spec fn first_occurrences(cells: Seq<GridCell>, n: int) -> Seq<int>
    decreases n,
{
    if n <= 0 {
        Seq::empty()
    } else if seen_before(cells, n - 1, cells[n - 1]) {
        first_occurrences(cells, n - 1)
    } else {
        first_occurrences(cells, n - 1).push(n - 1)
    }
}

/// The elements of `s` at some indices.
pub open spec fn picked<T>(s: Seq<T>, at: Seq<int>) -> Seq<T> {
    Seq::new(at.len(), |i: int| s[at[i]])
}

/// A set of grid cells.
struct CellSet {
    by_xy: HashMap<u128, HashSet<u128>>,
}

spec fn xy_key(x: i64, y: i64) -> u128 {
    ((x + 0x8000_0000_0000_0000) * 0x1_0000_0000_0000_0000 + (y + 0x8000_0000_0000_0000)) as u128
}

spec fn z_key(tag: u32, z: i64) -> u128 {
    (tag * 0x1_0000_0000_0000_0000 + (z + 0x8000_0000_0000_0000)) as u128
}

impl CellSet {
    spec fn has(&self, c: GridCell) -> bool {
        self.by_xy@.contains_key(xy_key(c.x, c.y)) && self.by_xy@[xy_key(c.x, c.y)]@.contains(
            z_key(c.tag, c.z),
        )
    }

    fn new() -> (r: CellSet)
        ensures
            forall|c: GridCell| !r.has(c),
    {
        broadcast use vstd::std_specs::hash::group_hash_axioms;

        CellSet { by_xy: HashMap::new() }
    }

    /// Adds a cell and says whether it was new.
    fn insert(&mut self, c: GridCell) -> (r: bool)
        ensures
            r == !old(self).has(c),
            forall|d: GridCell| #[trigger] final(self).has(d) <==> d == c || old(self).has(d),
    {
        broadcast use vstd::std_specs::hash::group_hash_axioms;

        let key: u128 = (c.x as i128 + 0x8000_0000_0000_0000) as u128 * 0x1_0000_0000_0000_0000 + (
        c.y as i128 + 0x8000_0000_0000_0000) as u128;
        assert(key == xy_key(c.x, c.y));
        let z: u128 = c.tag as u128 * 0x1_0000_0000_0000_0000 + (c.z as i128
            + 0x8000_0000_0000_0000) as u128;
        assert(z == z_key(c.tag, c.z));
        let mut zs: HashSet<u128> = match self.by_xy.remove(&key) {
            Some(zs) => zs,
            None => HashSet::new(),
        };
        let fresh = !zs.contains(&z);
        zs.insert(z);
        self.by_xy.insert(key, zs);
        fresh
    }
}

/// Keeps the first item of every grid cell. `cells[i]` is the cell of `items[i]`.
pub fn keep_first<T: Copy>(items: &[T], cells: &[GridCell]) -> (r: Vec<T>)
    requires
        items@.len() == cells@.len(),
    ensures
        r@ == picked(items@, first_occurrences(cells@, cells@.len() as int)),
{
    let mut seen = CellSet::new();
    let mut out: Vec<T> = Vec::new();
    let mut i: usize = 0;
    while i < items.len()
        invariant
            i <= items.len(),
            items@.len() == cells@.len(),
            forall|c: GridCell| #[trigger] seen.has(c) <==> seen_before(cells@, i as int, c),
            out@ == picked(items@, first_occurrences(cells@, i as int)),
        decreases items.len() - i,
    {
        let ghost before = seen;
        let ghost kept = first_occurrences(cells@, i as int);
        if seen.insert(cells[i]) {
            out.push(items[i]);
            assert(out@ =~= picked(items@, kept.push(i as int)));
        }
        proof {
            assert forall|c: GridCell| #[trigger] seen.has(c) <==> seen_before(
                cells@,
                i + 1,
                c,
            ) by {
                if seen_before(cells@, i as int, c) {
                    let k = choose|k: int| 0 <= k < i && #[trigger] cells@[k] == c;
                    assert(cells@[k] == c);
                }
                if cells@[i as int] == c {
                    assert(seen_before(cells@, i + 1, c));
                }
                assert(before.has(c) <==> seen_before(cells@, i as int, c));
            }
        }
        i += 1;
    }
    out
}

/// The cell of a placement on a grid with the given step.
pub open spec fn cell_of(p: SkelExtPlacement, quantum: u32) -> GridCell {
    GridCell {
        tag: 0,
        x: arith::nearest_whole(arith::quotient(p.matrix@[12], quantum)) as i64,
        y: arith::nearest_whole(arith::quotient(p.matrix@[13], quantum)) as i64,
        z: arith::nearest_whole(arith::quotient(p.matrix@[14], quantum)) as i64,
    }
}

/// The cells of placements on a grid with the given step.
pub open spec fn cells_of(p: Seq<SkelExtPlacement>, quantum: u32) -> Seq<GridCell> {
    Seq::new(p.len(), |i: int| cell_of(p[i], quantum))
}

/// What deduplication keeps: the first placement of every cell.
pub open spec fn deduped(p: Seq<SkelExtPlacement>, quantum: u32) -> Seq<SkelExtPlacement> {
    picked(p, first_occurrences(cells_of(p, quantum), p.len() as int))
}

/// Keeps the first placement of every cell of a grid. `quantum_m` is the step of the
/// grid in single precision.
pub fn dedupe_by_position(placements: &[SkelExtPlacement], quantum_m: u32) -> (r: Vec<
    SkelExtPlacement,
>)
    ensures
        r@ == deduped(placements@, quantum_m),
{
    let mut cells: Vec<GridCell> = Vec::new();
    let mut i: usize = 0;
    while i < placements.len()
        invariant
            i <= placements.len(),
            cells@.len() == i,
            forall|k: int|
                0 <= k < i ==> (#[trigger] cells@[k]) == cell_of(placements@[k], quantum_m),
        decreases placements.len() - i,
    {
        let m = &placements[i].matrix;
        cells.push(
            GridCell {
                tag: 0,
                x: arith::round_to_i64(arith::divide_singles(m[12], quantum_m)),
                y: arith::round_to_i64(arith::divide_singles(m[13], quantum_m)),
                z: arith::round_to_i64(arith::divide_singles(m[14], quantum_m)),
            },
        );
        i += 1;
    }
    assert(cells@ =~= cells_of(placements@, quantum_m));
    keep_first(placements, cells.as_slice())
}

/// Indices of first occurrences rise, and every cell has one.
pub proof fn first_occurrences_rise(cells: Seq<GridCell>, n: int)
    requires
        0 <= n <= cells.len(),
    ensures
        forall|a: int|
            0 <= a < first_occurrences(cells, n).len() ==> 0 <= #[trigger] first_occurrences(
                cells,
                n,
            )[a] < n && !seen_before(
                cells,
                first_occurrences(cells, n)[a],
                cells[first_occurrences(cells, n)[a]],
            ),
        forall|a: int, b: int|
            0 <= a < b < first_occurrences(cells, n).len() ==> #[trigger] first_occurrences(
                cells,
                n,
            )[a] < #[trigger] first_occurrences(cells, n)[b],
        forall|k: int|
            0 <= k < n ==> exists|a: int|
                0 <= a < first_occurrences(cells, n).len() && cells[#[trigger] first_occurrences(
                    cells,
                    n,
                )[a]] == #[trigger] cells[k],
    decreases n,
{
    if n > 0 {
        first_occurrences_rise(cells, n - 1);
        let sub = first_occurrences(cells, n - 1);
        let all = first_occurrences(cells, n);
        assert forall|k: int| 0 <= k < n implies exists|a: int|
            0 <= a < all.len() && cells[#[trigger] all[a]] == #[trigger] cells[k] by {
            let j = if k < n - 1 {
                k
            } else if seen_before(cells, n - 1, cells[n - 1]) {
                choose|j: int| 0 <= j < n - 1 && #[trigger] cells[j] == cells[n - 1]
            } else {
                n - 1
            };
            assert(cells[j] == cells[k]);
            if j < n - 1 {
                let a = choose|a: int|
                    0 <= a < sub.len() && cells[#[trigger] sub[a]] == cells[j];
                assert(all[a] == sub[a]);
            } else {
                assert(all[all.len() - 1] == n - 1);
            }
        }
    }
}

/// Deduplication keeps every cell exactly once, in order of first occurrence.
pub proof fn dedupe_keeps_every_cell_once(cells: Seq<GridCell>)
    ensures
        ({
            let kept = first_occurrences(cells, cells.len() as int);
            &&& forall|a: int, b: int|
                0 <= a < b < kept.len() ==> #[trigger] kept[a] < #[trigger] kept[b]
                    && cells[kept[a]] != cells[kept[b]]
            &&& forall|k: int|
                0 <= k < cells.len() ==> exists|a: int|
                    0 <= a < kept.len() && cells[#[trigger] kept[a]] == #[trigger] cells[k]
        }),
{
    first_occurrences_rise(cells, cells.len() as int);
    let kept = first_occurrences(cells, cells.len() as int);
    assert forall|a: int, b: int| 0 <= a < b < kept.len() implies #[trigger] kept[a]
        < #[trigger] kept[b] && cells[kept[a]] != cells[kept[b]] by {
        assert(!seen_before(cells, kept[b], cells[kept[b]]));
    }
}

proof fn distinct_cells_are_all_kept(cells: Seq<GridCell>, n: int)
    requires
        0 <= n <= cells.len(),
        forall|a: int, b: int| 0 <= a < b < cells.len() ==> cells[a] != cells[b],
    ensures
        first_occurrences(cells, n) == Seq::new(n as nat, |i: int| i),
    decreases n,
{
    if n > 0 {
        distinct_cells_are_all_kept(cells, n - 1);
        assert(Seq::new((n - 1) as nat, |i: int| i).push(n - 1) =~= Seq::new(n as nat, |i: int| i));
    } else {
        assert(Seq::new(0, |i: int| i) =~= Seq::<int>::empty());
    }
}

proof fn kept_cells(placements: Seq<SkelExtPlacement>, quantum: u32, kept: Seq<int>)
    requires
        forall|a: int| 0 <= a < kept.len() ==> 0 <= #[trigger] kept[a] < placements.len(),
    ensures
        cells_of(picked(placements, kept), quantum) == picked(cells_of(placements, quantum), kept),
{
    let cells = cells_of(placements, quantum);
    let once = cells_of(picked(placements, kept), quantum);
    assert forall|a: int| 0 <= a < kept.len() implies #[trigger] once[a] == picked(cells, kept)[a] by {
        assert(cells[kept[a]] == cell_of(placements[kept[a]], quantum));
    }
    assert(once =~= picked(cells, kept));
}

proof fn kept_cells_are_distinct(cells: Seq<GridCell>, kept: Seq<int>)
    requires
        kept == first_occurrences(cells, cells.len() as int),
    ensures
        first_occurrences(picked(cells, kept), kept.len() as int) == Seq::new(
            kept.len(),
            |i: int| i,
        ),
        forall|a: int| 0 <= a < kept.len() ==> 0 <= #[trigger] kept[a] < cells.len(),
{
    assert(forall|a: int| 0 <= a < kept.len() ==> 0 <= #[trigger] kept[a] < cells.len()) by {
        first_occurrences_rise(cells, cells.len() as int);
    }
    assert forall|a: int, b: int| 0 <= a < b < kept.len() implies picked(cells, kept)[a] != picked(
        cells,
        kept,
    )[b] by {
        dedupe_keeps_every_cell_once(cells);
        assert(kept[a] < kept[b]);
    }
    distinct_cells_are_all_kept(picked(cells, kept), kept.len() as int);
}

/// Deduplicating what deduplication kept changes nothing.
pub proof fn dedupe_is_idempotent(placements: Seq<SkelExtPlacement>, quantum: u32)
    ensures
        deduped(deduped(placements, quantum), quantum) == deduped(placements, quantum),
{
    let cells = cells_of(placements, quantum);
    let kept = first_occurrences(cells, cells.len() as int);
    let once = deduped(placements, quantum);
    kept_cells_are_distinct(cells, kept);
    kept_cells(placements, quantum, kept);
    assert(deduped(once, quantum) =~= once);
}

} // verus!
