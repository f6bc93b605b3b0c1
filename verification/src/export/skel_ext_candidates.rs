//! Decorative placements of a model: collected from its `.skel_ext` files, each once.
use vstd::prelude::*;
use vstd::arithmetic::power2::*;

use crate::arith;
use crate::exact;
use crate::export::mounts;
use crate::export::ships::ShipInfo;
use crate::models::skel_ext;
use crate::models::skel_ext::GridCell;
use crate::models::skel_ext::SkelExtPlacement;
use crate::models::skel_ext_layout;
use crate::models::transform;
use crate::models::visual::Matrix4x4;
use crate::single;
use crate::text;
use crate::text_laws;

verus! {

/// A `.skel_ext` file of a model.
#[derive(Debug)]
pub struct OwnedSkelExt {
    /// Section of a ship, or the stem of another model.
    pub segment: String,
    pub vfs_path: String,
    pub bytes: Vec<u8>,
}

/// What the placements belong to.
#[derive(Debug)]
pub enum SkelExtSubject {
    Ship(ShipInfo),
    Model { stem: String, display_name: Option<String> },
}

impl SkelExtSubject {
    /// The key of the subject in the manifest.
    pub fn key(&self) -> (r: &'static str)
        ensures
            r@ == match self {
                SkelExtSubject::Ship(_) => "ship"@,
                SkelExtSubject::Model { .. } => "model"@,
            },
    {
        match self {
            SkelExtSubject::Ship(_) => "ship",
            SkelExtSubject::Model { .. } => "model",
        }
    }
}

// ---- Collection -------------------------------------------------------------

/// A placement with the file that it comes from.
#[derive(Debug, Clone, Copy)]
pub struct LocatedPlacement {
    pub file: usize,
    pub placement: SkelExtPlacement,
}

pub struct LocatedView {
    pub file: int,
    pub placement: skel_ext::PlacementView,
}

impl View for LocatedPlacement {
    type V = LocatedView;

    open spec fn view(&self) -> LocatedView {
        LocatedView { file: self.file as int, placement: self.placement@ }
    }
}

pub open spec fn located_views(s: Seq<LocatedPlacement>) -> Seq<LocatedView> {
    Seq::new(s.len(), |i: int| s[i]@)
}

/// The placements of a file; none if it cannot be parsed.
pub open spec fn placements_in(b: Seq<u8>) -> Seq<skel_ext::PlacementView> {
    if b.len() < skel_ext::RECORD_STRIDE || skel_ext::records_of(b).len() == 0 {
        Seq::empty()
    } else {
        skel_ext::all_placements(b, skel_ext::records_of(b))
    }
}

/// Placements with a file.
pub open spec fn located(file: int, s: Seq<skel_ext::PlacementView>) -> Seq<LocatedView> {
    Seq::new(s.len(), |i: int| LocatedView { file, placement: s[i] })
}

/// The placements of the first `n` files.
pub open spec fn all_located(files: Seq<OwnedSkelExt>, n: int) -> Seq<LocatedView>
    decreases n,
{
    if n <= 0 {
        Seq::empty()
    } else {
        all_located(files, n - 1) + located(n - 1, placements_in(files[n - 1].bytes@))
    }
}

/// Collects the placements of all files. Files that cannot be parsed are skipped.
pub fn collect_placements(files: &Vec<OwnedSkelExt>) -> (r: Vec<LocatedPlacement>)
    ensures
        located_views(r@) == all_located(files@, files@.len() as int),
        forall|k: int| 0 <= k < r@.len() ==> (#[trigger] r@[k]).file < files@.len(),
{
    let mut out: Vec<LocatedPlacement> = Vec::new();
    let mut f: usize = 0;
    assert(located_views(out@) =~= all_located(files@, 0));
    while f < files.len()
        invariant
            f <= files.len(),
            located_views(out@) == all_located(files@, f as int),
            forall|k: int| 0 <= k < out@.len() ==> (#[trigger] out@[k]).file < files@.len(),
        decreases files.len() - f,
    {
        let ghost start = located_views(out@);
        let ghost found = placements_in(files@[f as int].bytes@);
        match skel_ext::parse_skel_ext(files[f].bytes.as_slice()) {
            Ok(placements) => {
                let mut i: usize = 0;
                assert(located_views(out@) =~= start + located(f as int, found.take(0)));
                while i < placements.len()
                    invariant
                        i <= placements.len(),
                        f < files@.len(),
                        skel_ext::placement_views(placements@) == found,
                        located_views(out@) == start + located(f as int, found.take(i as int)),
                        forall|k: int|
                            0 <= k < out@.len() ==> (#[trigger] out@[k]).file < files@.len(),
                    decreases placements.len() - i,
                {
                    let ghost before = located_views(out@);
                    assert(found[i as int] == placements@[i as int]@);
                    out.push(LocatedPlacement { file: f, placement: placements[i] });
                    assert(located_views(out@) =~= before.push(
                        LocatedView { file: f as int, placement: found[i as int] },
                    ));
                    i += 1;
                    assert(located_views(out@) =~= start + located(f as int, found.take(i as int)));
                }
                assert(found.take(found.len() as int) =~= found);
            },
            Err(_) => {
                assert(found =~= Seq::<skel_ext::PlacementView>::empty());
                assert(start + located(f as int, found) =~= start);
            },
        }
        f += 1;
    }
    out
}

// ---- Candidates -------------------------------------------------------------

/// Half a turn about the Y axis.
pub const RY_180_4X4: [u32; 16] = [
    0xBF80_0000, 0, 0, 0, 0, 0x3F80_0000, 0, 0, 0, 0, 0xBF80_0000, 0, 0, 0, 0, 0x3F80_0000,
];

/// A transform with its position mirrored along X and Z.
pub open spec fn position_turned(m: Seq<u32>) -> Seq<u32> {
    m.update(12, single::negated(m[12])).update(14, single::negated(m[14]))
}

/// The matrix of a candidate. With the rest pose of its bone, the placement is composed
/// with it and turned half a turn about Y: before it is applied if the host mirrors,
/// else in its position alone. Without it, the placement is mirrored along Z. Positions
/// are in metres.
pub open spec fn emitted(m: Seq<u32>, rest: Option<Seq<u32>>, host_mirrors: bool) -> Seq<u32> {
    match rest {
        Some(r) => {
            let composed = transform::matrix_product(r, m);
            skel_ext::in_metres(
                if host_mirrors {
                    transform::matrix_product(composed, RY_180_4X4@)
                } else {
                    position_turned(composed)
                },
            )
        },
        None => skel_ext::in_metres(skel_ext::z_negated(m)),
    }
}

/// Computes the matrix of a candidate.
pub fn emit_matrix(m: &[u32; 16], rest: Option<Matrix4x4>, host_mirrors: bool) -> (r: Matrix4x4)
    ensures
        r@ == emitted(m@, mounts::opt_matrix(rest), host_mirrors),
{
    match rest {
        Some(rest) => {
            let composed: Matrix4x4 = transform::mat4_mul_col_major(&rest, &Matrix4x4(*m));
            if host_mirrors {
                let turned: Matrix4x4 = transform::mat4_mul_col_major(
                    &composed,
                    &Matrix4x4(RY_180_4X4),
                );
                Matrix4x4(skel_ext::scale_to_metres(turned.0))
            } else {
                let mut a: [u32; 16] = composed.0;
                a[12] = single::negate(a[12]);
                a[14] = single::negate(a[14]);
                assert(a@ =~= position_turned(composed@));
                Matrix4x4(skel_ext::scale_to_metres(a))
            }
        },
        None => Matrix4x4(skel_ext::to_metric_glft(*m)),
    }
}

/// A bone of a model, by the hash of its name, with its rest pose.
#[derive(Debug, Clone, Copy)]
pub struct BoneRest {
    pub p1_hash: u32,
    pub rest: Matrix4x4,
}

/// The bones that the placements of a model hang from.
#[derive(Debug)]
pub struct Skeleton {
    pub bones: Vec<BoneRest>,
    /// Transform of the bone that turns the model.
    pub blend_bone: Option<Matrix4x4>,
}

/// The rest pose of the first bone with the given hash, from `i` on.
pub open spec fn rest_from(bones: Seq<BoneRest>, p1_hash: u32, i: int) -> Option<Seq<u32>>
    decreases bones.len() - i,
{
    if i < 0 || i >= bones.len() {
        None
    } else if bones[i].p1_hash == p1_hash {
        Some(bones[i].rest@)
    } else {
        rest_from(bones, p1_hash, i + 1)
    }
}

impl Skeleton {
    /// The rest pose of the bone with the given hash.
    pub open spec fn rest(&self, p1_hash: u32) -> Option<Seq<u32>> {
        rest_from(self.bones@, p1_hash, 0)
    }

    /// Whether the bone that turns the model mirrors it. A model without such a bone is
    /// not mirrored.
    pub open spec fn mirrors(&self) -> bool {
        match self.blend_bone {
            Some(b) => transform::mirrors(b@),
            None => false,
        }
    }

    /// Finds the rest pose of the bone with the given hash.
    pub fn find_rest(&self, p1_hash: u32) -> (r: Option<Matrix4x4>)
        ensures
            mounts::opt_matrix(r) == self.rest(p1_hash),
    {
        let mut i: usize = 0;
        while i < self.bones.len()
            invariant
                i <= self.bones.len(),
                rest_from(self.bones@, p1_hash, i as int) == self.rest(p1_hash),
            decreases self.bones.len() - i,
        {
            if self.bones[i].p1_hash == p1_hash {
                return Some(self.bones[i].rest);
            }
            i += 1;
        }
        None
    }

    /// Finds whether the bone that turns the model mirrors it.
    pub fn is_mirrored(&self) -> (r: bool)
        ensures
            r == self.mirrors(),
    {
        match &self.blend_bone {
            Some(b) => transform::has_mirror(b),
            None => false,
        }
    }
}

/// Whether the host of placements mirrors them. Without a skeleton it does not.
pub open spec fn host_mirrors(skeleton: Option<Skeleton>) -> bool {
    match skeleton {
        Some(s) => s.mirrors(),
        None => false,
    }
}

/// A placement that is kept.
#[derive(Debug)]
pub struct Candidate {
    /// Index of the placement.
    pub placement: usize,
    pub segment: String,
    pub record_offset: String,
    pub record_type: u16,
    pub record_count: u16,
    pub matrix_index: u32,
    pub p0_hash: String,
    pub p1_hash: String,
    pub matrix: Matrix4x4,
}

pub struct CandidateView {
    pub placement: int,
    pub segment: Seq<char>,
    pub record_offset: Seq<char>,
    pub record_type: u16,
    pub record_count: u16,
    pub matrix_index: u32,
    pub p0_hash: Seq<char>,
    pub p1_hash: Seq<char>,
    pub matrix: Seq<u32>,
}

impl View for Candidate {
    type V = CandidateView;

    open spec fn view(&self) -> CandidateView {
        CandidateView {
            placement: self.placement as int,
            segment: self.segment@,
            record_offset: self.record_offset@,
            record_type: self.record_type,
            record_count: self.record_count,
            matrix_index: self.matrix_index,
            p0_hash: self.p0_hash@,
            p1_hash: self.p1_hash@,
            matrix: self.matrix@,
        }
    }
}

pub open spec fn candidate_views(s: Seq<Candidate>) -> Seq<CandidateView> {
    Seq::new(s.len(), |i: int| s[i]@)
}

/// A number as `0x` and upper-case hexadecimal digits.
pub open spec fn hex_text(n: u64) -> Seq<char> {
    "0x"@ + text::hex(n as int)
}

/// A hash as `0x` and eight upper-case hexadecimal digits.
pub open spec fn hash_text(n: u32) -> Seq<char> {
    "0x"@ + text::zero_padded(text::hex(n as int), 8)
}

/// Writes a hash.
pub fn write_hash(n: u32) -> (r: String)
    ensures
        r@ == hash_text(n),
{
    text::concat("0x", text::pad_zeros(text::to_hex(n as u64).as_str(), 8).as_str())
}

/// Bit pattern of 100.
pub const HUNDRED_BITS: u32 = 0x42C8_0000;

/// The cell of a placement: its position in hundredths of a native unit, and its first
/// hash.
pub open spec fn cell_of(p: LocatedView) -> GridCell {
    let m = p.placement.matrix;
    GridCell {
        tag: p.placement.p0_hash,
        x: arith::nearest_whole(arith::product(m[12], HUNDRED_BITS)) as i64,
        y: arith::nearest_whole(arith::product(m[13], HUNDRED_BITS)) as i64,
        z: arith::nearest_whole(arith::product(m[14], HUNDRED_BITS)) as i64,
    }
}

pub open spec fn cells_of(p: Seq<LocatedView>) -> Seq<GridCell> {
    Seq::new(p.len(), |i: int| cell_of(p[i]))
}

/// The rest pose of the bone with a hash, where a skeleton is at hand and has the bone.
pub open spec fn rest_of(skeleton: Option<Skeleton>, p1_hash: u32) -> Option<Seq<u32>> {
    match skeleton {
        Some(s) => s.rest(p1_hash),
        None => None,
    }
}

/// The candidate that placement `i` becomes.
pub open spec fn candidate_of(
    files: Seq<OwnedSkelExt>,
    p: Seq<LocatedView>,
    skeleton: Option<Skeleton>,
    i: int,
) -> CandidateView {
    let pl = p[i].placement;
    CandidateView {
        placement: i,
        segment: files[p[i].file].segment@,
        record_offset: hex_text(pl.record_offset),
        record_type: pl.record_type,
        record_count: pl.record_count,
        matrix_index: pl.matrix_index,
        p0_hash: hash_text(pl.p0_hash),
        p1_hash: hash_text(pl.p1_hash),
        matrix: emitted(pl.matrix, rest_of(skeleton, pl.p1_hash), host_mirrors(skeleton)),
    }
}

fn make_candidate(
    files: &Vec<OwnedSkelExt>,
    p: &Vec<LocatedPlacement>,
    skeleton: &Option<Skeleton>,
    i: usize,
) -> (r: Candidate)
    requires
        i < p@.len(),
        p@[i as int].file < files@.len(),
    ensures
        r@ == candidate_of(files@, located_views(p@), *skeleton, i as int),
{
    let pl = &p[i].placement;
    let (rest, mirrored): (Option<Matrix4x4>, bool) = match skeleton {
        Some(s) => (s.find_rest(pl.p1_hash), s.is_mirrored()),
        None => (None, false),
    };
    assert(located_views(p@)[i as int] == p@[i as int]@);
    Candidate {
        placement: i,
        segment: text::copy(files[p[i].file].segment.as_str()),
        record_offset: text::concat("0x", text::to_hex(pl.record_offset).as_str()),
        record_type: pl.record_type,
        record_count: pl.record_count,
        matrix_index: pl.matrix_index,
        p0_hash: write_hash(pl.p0_hash),
        p1_hash: write_hash(pl.p1_hash),
        matrix: emit_matrix(&pl.matrix, rest, mirrored),
    }
}

/// The candidates of some placements.
pub open spec fn candidates_at(
    files: Seq<OwnedSkelExt>,
    p: Seq<LocatedView>,
    skeleton: Option<Skeleton>,
    kept: Seq<int>,
) -> Seq<CandidateView> {
    Seq::new(kept.len(), |k: int| candidate_of(files, p, skeleton, kept[k]))
}

/// The placements that are kept: the first in each cell.
pub open spec fn kept_placements(p: Seq<LocatedView>) -> Seq<int> {
    skel_ext::first_occurrences(cells_of(p), p.len() as int)
}

/// Keeps the first placement with each first hash and rounded position.
pub fn select_candidates(
    files: &Vec<OwnedSkelExt>,
    placements: &Vec<LocatedPlacement>,
    skeleton: &Option<Skeleton>,
) -> (r: Vec<Candidate>)
    requires
        forall|k: int|
            0 <= k < placements@.len() ==> (#[trigger] placements@[k]).file < files@.len(),
    ensures
        ({
            let p = located_views(placements@);
            candidate_views(r@) == candidates_at(files@, p, *skeleton, kept_placements(p))
        }),
{
    let ghost p = located_views(placements@);
    let mut cells: Vec<GridCell> = Vec::new();
    let mut order: Vec<usize> = Vec::new();
    let mut i: usize = 0;
    while i < placements.len()
        invariant
            i <= placements.len(),
            cells@.len() == i,
            order@.len() == i,
            p == located_views(placements@),
            forall|k: int| 0 <= k < i ==> (#[trigger] cells@[k]) == cell_of(p[k]),
            forall|k: int| 0 <= k < i ==> (#[trigger] order@[k]) == k,
        decreases placements.len() - i,
    {
        let m = &placements[i].placement.matrix;
        assert(p[i as int] == placements@[i as int]@);
        cells.push(
            GridCell {
                tag: placements[i].placement.p0_hash,
                x: arith::round_to_i64(arith::multiply_singles(m[12], HUNDRED_BITS)),
                y: arith::round_to_i64(arith::multiply_singles(m[13], HUNDRED_BITS)),
                z: arith::round_to_i64(arith::multiply_singles(m[14], HUNDRED_BITS)),
            },
        );
        order.push(i);
        i += 1;
    }
    assert(cells@ =~= cells_of(p));
    let kept = skel_ext::keep_first(&order, &cells);
    let ghost first = skel_ext::first_occurrences(cells@, cells@.len() as int);
    proof {
        skel_ext::first_occurrences_rise(cells@, cells@.len() as int);
    }
    let mut out: Vec<Candidate> = Vec::new();
    let mut k: usize = 0;
    while k < kept.len()
        invariant
            k <= kept.len(),
            out@.len() == k,
            kept@ == skel_ext::picked(order@, first),
            order@.len() == placements@.len(),
            forall|k: int| 0 <= k < order@.len() ==> (#[trigger] order@[k]) == k,
            forall|a: int| 0 <= a < first.len() ==> 0 <= #[trigger] first[a] < placements@.len(),
            p == located_views(placements@),
            forall|k: int|
                0 <= k < placements@.len() ==> (#[trigger] placements@[k]).file < files@.len(),
            forall|j: int|
                0 <= j < k ==> (#[trigger] out@[j])@ == candidate_of(
                    files@,
                    p,
                    *skeleton,
                    first[j],
                ),
        decreases kept.len() - k,
    {
        assert(kept@[k as int] == order@[first[k as int]]);
        let c = make_candidate(files, placements, skeleton, kept[k]);
        out.push(c);
        k += 1;
    }
    assert(candidate_views(out@) =~= candidates_at(files@, p, *skeleton, first));
    out
}

// ---- Bones that are not found -----------------------------------------------

/// A second hash whose bone is not found, with the number of candidates that name it.
#[derive(Debug, Clone, Copy, PartialEq, Eq, Structural)]
pub struct MissingBone {
    pub p1_hash: u32,
    pub count: u64,
}

/// Index of a hash in a list, from `i` on.
pub open spec fn missing_from(list: Seq<MissingBone>, hash: u32, i: int) -> Option<int>
    decreases list.len() - i,
{
    if i < 0 || i >= list.len() {
        None
    } else if list[i].p1_hash == hash {
        Some(i)
    } else {
        missing_from(list, hash, i + 1)
    }
}

/// A list with one more occurrence of a hash.
pub open spec fn counted(list: Seq<MissingBone>, hash: u32) -> Seq<MissingBone> {
    match missing_from(list, hash, 0) {
        Some(i) => list.update(
            i,
            MissingBone { p1_hash: hash, count: (list[i].count + 1) as u64 },
        ),
        None => list.push(MissingBone { p1_hash: hash, count: 1 }),
    }
}

/// The bones of the first `n` of some placements that a skeleton lacks, counted.
pub open spec fn missing_bones(
    p: Seq<LocatedView>,
    skeleton: Skeleton,
    kept: Seq<int>,
    n: int,
) -> Seq<MissingBone>
    decreases n,
{
    if n <= 0 {
        Seq::empty()
    } else {
        let before = missing_bones(p, skeleton, kept, n - 1);
        let hash = p[kept[n - 1]].placement.p1_hash;
        if skeleton.rest(hash) is Some {
            before
        } else {
            counted(before, hash)
        }
    }
}

/// A list with one more item in its place: behind every item that counts as much or
/// more.
pub open spec fn ranked_in(list: Seq<MissingBone>, item: MissingBone) -> Seq<MissingBone>
    decreases list.len(),
{
    if list.len() == 0 {
        seq![item]
    } else if list.last().count < item.count {
        ranked_in(list.drop_last(), item).push(list.last())
    } else {
        list.push(item)
    }
}

/// The first `n` items of a list, the largest counts first, equal counts as they stood.
pub open spec fn ranked(list: Seq<MissingBone>, n: int) -> Seq<MissingBone>
    decreases n,
{
    if n <= 0 {
        Seq::empty()
    } else {
        ranked_in(ranked(list, n - 1), list[n - 1])
    }
}

/// At most the first sixteen items.
pub open spec fn top(list: Seq<MissingBone>) -> Seq<MissingBone> {
    if list.len() <= 16 {
        list
    } else {
        list.take(16)
    }
}

fn count_missing(list: &mut Vec<MissingBone>, hash: u32)
    requires
        forall|k: int| 0 <= k < old(list)@.len() ==> (#[trigger] old(list)@[k]).count < u64::MAX,
    ensures
        final(list)@ == counted(old(list)@, hash),
{
    let mut i: usize = 0;
    while i < list.len()
        invariant
            i <= list.len(),
            list@ == old(list)@,
            missing_from(list@, hash, i as int) == missing_from(list@, hash, 0),
            forall|k: int|
                0 <= k < old(list)@.len() ==> (#[trigger] old(list)@[k]).count < u64::MAX,
        decreases list.len() - i,
    {
        if list[i].p1_hash == hash {
            let count: u64 = list[i].count;
            assert(count == old(list)@[i as int].count);
            list.set(i, MissingBone { p1_hash: hash, count: count + 1 });
            return;
        }
        i += 1;
    }
    list.push(MissingBone { p1_hash: hash, count: 1 });
}

fn rank(list: &Vec<MissingBone>) -> (r: Vec<MissingBone>)
    ensures
        r@ == ranked(list@, list@.len() as int),
{
    let mut out: Vec<MissingBone> = Vec::new();
    let mut i: usize = 0;
    while i < list.len()
        invariant
            i <= list.len(),
            out@ == ranked(list@, i as int),
        decreases list.len() - i,
    {
        let item: MissingBone = list[i];
        let mut at: usize = out.len();
        let ghost before = out@;
        assert(before.take(at as int) =~= before);
        assert(before.skip(at as int) =~= Seq::<MissingBone>::empty());
        assert(ranked_in(before, item) =~= ranked_in(before.take(at as int), item) + before.skip(
            at as int,
        ));
        while at > 0 && out[at - 1].count < item.count
            invariant
                at <= out@.len(),
                out@ == before,
                ranked_in(before, item) == ranked_in(before.take(at as int), item) + before.skip(
                    at as int,
                ),
            decreases at,
        {
            proof {
                let head = before.take(at as int);
                assert(head.last() == before[at - 1]);
                assert(head.drop_last() =~= before.take(at - 1));
                assert(ranked_in(head, item) + before.skip(at as int) =~= ranked_in(
                    before.take(at - 1),
                    item,
                ) + before.skip(at - 1));
            }
            at -= 1;
        }
        proof {
            let head = before.take(at as int);
            if at > 0 {
                assert(head.last() == before[at - 1]);
            }
            assert(ranked_in(head, item) =~= head.push(item));
        }
        out.insert(at, item);
        assert(out@ =~= before.take(at as int).push(item) + before.skip(at as int));
        i += 1;
    }
    out
}

proof fn missing_from_is_exact(list: Seq<MissingBone>, hash: u32, i: int)
    requires
        0 <= i,
    ensures
        missing_from(list, hash, i) matches Some(k) ==> i <= k < list.len() && list[k].p1_hash
            == hash,
    decreases list.len() - i,
{
    if i < list.len() && list[i].p1_hash != hash {
        missing_from_is_exact(list, hash, i + 1);
    }
}

proof fn counts_are_bounded(
    p: Seq<LocatedView>,
    skeleton: Skeleton,
    kept: Seq<int>,
    n: int,
    k: int,
)
    requires
        0 <= n < u64::MAX,
        0 <= k < missing_bones(p, skeleton, kept, n).len(),
    ensures
        missing_bones(p, skeleton, kept, n)[k].count <= n,
    decreases n,
{
    if n > 0 {
        let before = missing_bones(p, skeleton, kept, n - 1);
        missing_from_is_exact(before, p[kept[n - 1]].placement.p1_hash, 0);
        if k < before.len() {
            counts_are_bounded(p, skeleton, kept, n - 1, k);
        }
    }
}

pub open spec fn placements_of(c: Seq<Candidate>) -> Seq<int> {
    Seq::new(c.len(), |k: int| c[k].placement as int)
}

/// The sixteen most frequent ones of the bones that a skeleton lacks.
pub open spec fn top_missing(p: Seq<LocatedView>, skeleton: Skeleton, kept: Seq<int>) -> Seq<
    MissingBone,
> {
    let all = missing_bones(p, skeleton, kept, kept.len() as int);
    top(ranked(all, all.len() as int))
}

/// Counts the candidates whose bone the skeleton lacks, by hash, and lists the sixteen
/// most frequent ones.
pub fn unresolved_bones(
    placements: &Vec<LocatedPlacement>,
    skeleton: &Skeleton,
    candidates: &Vec<Candidate>,
) -> (r: Vec<MissingBone>)
    requires
        forall|k: int|
            0 <= k < candidates@.len() ==> (#[trigger] candidates@[k]).placement
                < placements@.len(),
    ensures
        r@ == top_missing(located_views(placements@), *skeleton, placements_of(candidates@)),
{
    let mut list: Vec<MissingBone> = Vec::new();
    let mut i: usize = 0;
    let ghost p = located_views(placements@);
    let ghost kept = placements_of(candidates@);
    while i < candidates.len()
        invariant
            i <= candidates.len(),
            p == located_views(placements@),
            kept == placements_of(candidates@),
            forall|k: int|
                0 <= k < candidates@.len() ==> (#[trigger] candidates@[k]).placement
                    < placements@.len(),
            list@ == missing_bones(p, *skeleton, kept, i as int),
        decreases candidates.len() - i,
    {
        let at: usize = candidates[i].placement;
        assert(kept[i as int] == at);
        assert(p[at as int] == placements@[at as int]@);
        let hash: u32 = placements[at].placement.p1_hash;
        if skeleton.find_rest(hash).is_none() {
            assert forall|k: int| 0 <= k < list@.len() implies (#[trigger] list@[k]).count
                < u64::MAX by {
                counts_are_bounded(p, *skeleton, kept, i as int, k);
            }
            count_missing(&mut list, hash);
        }
        i += 1;
    }
    let mut out = rank(&list);
    if out.len() > 16 {
        out.truncate(16);
    }
    out
}

// ---- Manifest ---------------------------------------------------------------

/// What a manifest says of the files that its candidates come from.
#[derive(Debug)]
pub struct ManifestDetails {
    /// How the matrices are made.
    pub note: &'static str,
    /// Whether the bone that turns the model mirrors it.
    pub host_mirrors: bool,
    /// Number of placements in all files.
    pub raw_matrix_count: usize,
    pub segments: Vec<String>,
    pub unresolved: Vec<MissingBone>,
}

/// The decorative placements of a model, as they are written down.
#[derive(Debug)]
pub struct SkelExtManifest {
    pub schema_version: u32,
    pub file_count: usize,
    pub candidates: Vec<Candidate>,
    /// Nothing if there are no files.
    pub details: Option<ManifestDetails>,
}

/// How the matrices of candidates are made.
pub open spec fn emit_note(has_skeleton: bool) -> Seq<char> {
    if has_skeleton {
        "bone_composed + {Ry(180\u{b0}) post if det(M_BB)<0 else col_3 X+Z negate} + \u{d7}15 (post-2026-05-10)"@
    } else {
        "to_metric_glft (legacy: S\u{b7}M\u{b7}S + \u{d7}15)"@
    }
}

/// The segments of files.
pub open spec fn segments_of(files: Seq<OwnedSkelExt>) -> Seq<Seq<char>> {
    Seq::new(files.len(), |i: int| files[i].segment@)
}

impl ManifestDetails {
    /// Whether these are the details for some files, their placements and a skeleton.
    pub open spec fn describes(
        &self,
        files: Seq<OwnedSkelExt>,
        p: Seq<LocatedView>,
        skeleton: Option<Skeleton>,
    ) -> bool {
        &&& self.note@ == emit_note(skeleton is Some)
        &&& self.host_mirrors == host_mirrors(skeleton)
        &&& self.raw_matrix_count == p.len()
        &&& text::texts(self.segments@) == segments_of(files)
        &&& self.unresolved@ == match skeleton {
            Some(s) => top_missing(p, s, kept_placements(p)),
            None => Seq::empty(),
        }
    }
}

fn copy_segments(files: &Vec<OwnedSkelExt>) -> (r: Vec<String>)
    ensures
        text::texts(r@) == segments_of(files@),
{
    let mut out: Vec<String> = Vec::new();
    let mut i: usize = 0;
    while i < files.len()
        invariant
            i <= files.len(),
            out@.len() == i,
            forall|k: int| 0 <= k < i ==> (#[trigger] out@[k])@ == files@[k].segment@,
        decreases files.len() - i,
    {
        out.push(text::copy(files[i].segment.as_str()));
        i += 1;
    }
    assert(text::texts(out@) =~= segments_of(files@));
    out
}

impl SkelExtManifest {
    /// Whether this is the manifest of some files and a skeleton. The version is 3 with a
    /// skeleton and 1 without.
    pub open spec fn is_of(&self, files: Seq<OwnedSkelExt>, skeleton: Option<Skeleton>) -> bool {
        let p = all_located(files, files.len() as int);
        &&& self.schema_version == if skeleton is Some {
            3u32
        } else {
            1u32
        }
        &&& self.file_count == files.len()
        &&& candidate_views(self.candidates@) == candidates_at(
            files,
            p,
            skeleton,
            kept_placements(p),
        )
        &&& match self.details {
            Some(d) => files.len() > 0 && d.describes(files, p, skeleton),
            None => files.len() == 0,
        }
    }
}

/// Writes down the decorative placements of a model: from its files, and from its
/// skeleton if one is at hand.
pub fn build_manifest(files: &Vec<OwnedSkelExt>, skeleton: &Option<Skeleton>) -> (r:
    SkelExtManifest)
    ensures
        r.is_of(files@, *skeleton),
{
    let schema_version: u32 = if skeleton.is_some() {
        3
    } else {
        1
    };
    let placements = collect_placements(files);
    let candidates = select_candidates(files, &placements, skeleton);
    let ghost p = located_views(placements@);
    let ghost kept = kept_placements(p);
    proof {
        skel_ext::first_occurrences_rise(cells_of(p), p.len() as int);
        assert(candidate_views(candidates@).len() == kept.len());
        assert forall|k: int| 0 <= k < candidates@.len() implies (#[trigger] candidates@[k]).placement
            == kept[k] by {
            assert(candidate_views(candidates@)[k] == candidates@[k]@);
        }
        assert(placements_of(candidates@) =~= kept);
    }
    if files.len() == 0 {
        return SkelExtManifest { schema_version, file_count: 0, candidates, details: None };
    }
    let (note, mirrored, unresolved): (&'static str, bool, Vec<MissingBone>) = match skeleton {
        Some(s) => (
            "bone_composed + {Ry(180\u{b0}) post if det(M_BB)<0 else col_3 X+Z negate} + \u{d7}15 (post-2026-05-10)",
            s.is_mirrored(),
            unresolved_bones(&placements, s, &candidates),
        ),
        None => ("to_metric_glft (legacy: S\u{b7}M\u{b7}S + \u{d7}15)", false, Vec::new()),
    };
    let details = ManifestDetails {
        note,
        host_mirrors: mirrored,
        raw_matrix_count: placements.len(),
        segments: copy_segments(files),
        unresolved,
    };
    SkelExtManifest { schema_version, file_count: files.len(), candidates, details: Some(details) }
}

/// No two placements that are kept stand in the same cell.
pub proof fn kept_placements_have_distinct_cells(p: Seq<LocatedView>, a: int, b: int)
    requires
        0 <= a < b < kept_placements(p).len(),
    ensures
        cell_of(p[kept_placements(p)[a]]) != cell_of(p[kept_placements(p)[b]]),
{
    let cells = cells_of(p);
    let kept = kept_placements(p);
    assert(0 <= kept[a] < p.len() && 0 <= kept[b] < p.len()) by {
        skel_ext::first_occurrences_rise(cells, p.len() as int);
    }
    assert(cells[kept[a]] != cells[kept[b]]) by {
        skel_ext::dedupe_keeps_every_cell_once(cells);
    }
}

/// The first placement of every cell is kept: for each placement, one that is not behind
/// it and stands in the same cell.
pub proof fn every_cell_keeps_its_first_placement(p: Seq<LocatedView>, i: int) -> (a: int)
    requires
        0 <= i < p.len(),
    ensures
        0 <= a < kept_placements(p).len(),
        0 <= kept_placements(p)[a] <= i,
        cell_of(p[kept_placements(p)[a]]) == cell_of(p[i]),
{
    let cells = cells_of(p);
    let kept = kept_placements(p);
    assert(exists|a: int| 0 <= a < kept.len() && cells[#[trigger] kept[a]] == cells[i]) by {
        skel_ext::dedupe_keeps_every_cell_once(cells);
    }
    let a = choose|a: int| 0 <= a < kept.len() && cells[#[trigger] kept[a]] == cells[i];
    assert(0 <= kept[a] < p.len() && !skel_ext::seen_before(cells, kept[a], cells[kept[a]])) by {
        skel_ext::first_occurrences_rise(cells, p.len() as int);
    }
    a
}

/// Ranked items stand in descending order of their counts.
pub proof fn ranking_descends(list: Seq<MissingBone>, n: int)
    requires
        0 <= n <= list.len(),
    ensures
        forall|a: int, b: int|
            0 <= a < b < ranked(list, n).len() ==> (#[trigger] ranked(list, n)[a]).count >= (
            #[trigger] ranked(list, n)[b]).count,
    decreases n,
{
    if n > 0 {
        ranking_descends(list, n - 1);
        ranking_in_descends(ranked(list, n - 1), list[n - 1]);
    }
}

proof fn ranking_in_descends(list: Seq<MissingBone>, item: MissingBone)
    requires
        forall|a: int, b: int|
            0 <= a < b < list.len() ==> (#[trigger] list[a]).count >= (#[trigger] list[b]).count,
    ensures
        forall|a: int, b: int|
            0 <= a < b < ranked_in(list, item).len() ==> (#[trigger] ranked_in(list, item)[a]).count
                >= (#[trigger] ranked_in(list, item)[b]).count,
        forall|a: int|
            0 <= a < ranked_in(list, item).len() ==> {
                let x = #[trigger] ranked_in(list, item)[a];
                x == item || list.contains(x)
            },
    decreases list.len(),
{
    let now = ranked_in(list, item);
    if list.len() > 0 {
        if list.last().count < item.count {
            let rest = list.drop_last();
            assert(forall|a: int, b: int|
                0 <= a < b < rest.len() ==> (#[trigger] rest[a]).count >= (
                #[trigger] rest[b]).count);
            ranking_in_descends(rest, item);
            let before = ranked_in(rest, item);
            assert forall|a: int| 0 <= a < now.len() implies {
                let x = #[trigger] now[a];
                x == item || list.contains(x)
            } by {
                if a < before.len() {
                    assert(now[a] == before[a]);
                    if before[a] != item {
                        let k = choose|k: int| 0 <= k < rest.len() && rest[k] == before[a];
                        assert(list[k] == now[a]);
                    }
                } else {
                    assert(list[list.len() - 1] == now[a]);
                }
            }
            assert forall|a: int, b: int| 0 <= a < b < now.len() implies (#[trigger] now[a]).count
                >= (#[trigger] now[b]).count by {
                if b < before.len() {
                    assert(now[a] == before[a] && now[b] == before[b]);
                } else {
                    assert(now[a] == before[a]);
                    if before[a] != item {
                        let k = choose|k: int| 0 <= k < rest.len() && rest[k] == before[a];
                        assert(list[k].count >= list[list.len() - 1].count);
                    }
                }
            }
        } else {
            assert forall|a: int, b: int| 0 <= a < b < now.len() implies (#[trigger] now[a]).count
                >= (#[trigger] now[b]).count by {
                if b < list.len() {
                    assert(now[a] == list[a] && now[b] == list[b]);
                } else {
                    assert(now[a] == list[a]);
                    if a < list.len() - 1 {
                        assert(list[a].count >= list[list.len() - 1].count);
                    }
                }
            }
            assert forall|a: int| 0 <= a < now.len() implies {
                let x = #[trigger] now[a];
                x == item || list.contains(x)
            } by {
                if a < list.len() {
                    assert(list[a] == now[a]);
                }
            }
        }
    }
}

// ---- Where placements stand -------------------------------------------------

/// With a bone, a placement is first moved as the file says, then with the bone: its place
/// is where the bone's rest pose takes the placement's own place, in metres, and mirrored
/// along X and Z unless the host mirrors.
#[verifier::rlimit(50)]
pub proof fn placements_stand_on_their_bones(
    m: Seq<u32>,
    rest: Seq<u32>,
    mirrors: bool,
    n: Seq<int>,
    r: Seq<int>,
)
    requires
        transform::cells_are(m, n),
        transform::cells_are(rest, r),
        transform::within(n, 64),
        transform::within(r, 64),
        transform::moves_points(n),
        transform::moves_points(r),
    ensures
        ({
            let place = transform::taken(r, seq![n[12], n[13], n[14]]);
            let sign = if mirrors {
                1int
            } else {
                -1int
            };
            &&& exact::stands_for(emitted(m, Some(rest), mirrors)[12], sign * (15 * place[0]), 0)
            &&& exact::stands_for(emitted(m, Some(rest), mirrors)[13], 15 * place[1], 0)
            &&& exact::stands_for(emitted(m, Some(rest), mirrors)[14], sign * (15 * place[2]), 0)
        }),
{
    transform::small_transforms_multiply_exactly(rest, m, r, n, 64, 64);
    let c = transform::applied_to_columns(r, n);
    let composed = transform::matrix_product(rest, m);
    assert(transform::within(c, 0x4000)) by {
        assert forall|i: int| 0 <= i < 16 implies -0x4000 <= #[trigger] c[i] <= 0x4000 by {
            let k = i / 4 * 4;
            transform::products_are_bounded(n[k], r[i % 4], 64, 64);
            transform::products_are_bounded(n[k + 1], r[4 + i % 4], 64, 64);
            transform::products_are_bounded(n[k + 2], r[8 + i % 4], 64, 64);
            transform::products_are_bounded(n[k + 3], r[12 + i % 4], 64, 64);
        }
    }
    let place = transform::taken(r, seq![n[12], n[13], n[14]]);
    assert(n[15] * r[12] == r[12] && n[15] * r[13] == r[13] && n[15] * r[14] == r[14])
        by (nonlinear_arith)
        requires
            n[15] == 1,
    ;
    assert(c[12] == place[0] && c[13] == place[1] && c[14] == place[2]);
    let turned = if mirrors {
        transform::matrix_product(composed, RY_180_4X4@)
    } else {
        position_turned(composed)
    };
    exact::one();
    exact::zero(0);
    exact::negations(single::ONE_BITS, 1, 0);
    let cells = if mirrors {
        half_turns_flip_two_axes(composed, c);
        Seq::new(
            16,
            |i: int|
                if i < 4 || 8 <= i < 12 {
                    -c[i]
                } else {
                    c[i]
                },
        )
    } else {
        assert(exact::stands_for(composed[12], c[12], 0) && exact::stands_for(
            composed[14],
            c[14],
            0,
        ));
        exact::negations(composed[12], c[12], 0);
        exact::negations(composed[14], c[14], 0);
        let cells = Seq::new(
            16,
            |i: int|
                if i == 12 || i == 14 {
                    -c[i]
                } else {
                    c[i]
                },
        );
        assert forall|i: int| 0 <= i < 16 implies exact::stands_for(
            #[trigger] turned[i],
            cells[i],
            0,
        ) by {
            assert(exact::stands_for(composed[i], c[i], 0));
        }
        cells
    };
    assert(transform::within(cells, 0x1_0000)) by {
        assert forall|i: int| 0 <= i < 16 implies -0x1_0000 <= #[trigger] cells[i] <= 0x1_0000 by {
            assert(-0x4000 <= c[i] <= 0x4000);
        }
    }
    skel_ext_layout::units_are_fifteen_metres(turned, cells);
    assert(-1 * (15 * place[0]) == 15 * (-place[0]) && -1 * (15 * place[2]) == 15 * (-place[2]));
}

#[verifier::rlimit(50)]
proof fn half_turns_flip_two_axes(m: Seq<u32>, c: Seq<int>)
    requires
        transform::cells_are(m, c),
        transform::within(c, 0x4000),
    ensures
        transform::cells_are(
            transform::matrix_product(m, RY_180_4X4@),
            Seq::new(
                16,
                |i: int|
                    if i < 4 || 8 <= i < 12 {
                        -c[i]
                    } else {
                        c[i]
                    },
            ),
        ),
{
    let half = seq![-1int, 0, 0, 0, 0, 1, 0, 0, 0, 0, -1, 0, 0, 0, 0, 1];
    exact::one();
    exact::zero(0);
    exact::negations(single::ONE_BITS, 1, 0);
    assert(single::negated(single::ONE_BITS) == 0xBF80_0000);
    assert forall|i: int| 0 <= i < 16 implies exact::stands_for(
        #[trigger] RY_180_4X4@[i],
        half[i],
        0,
    ) by {
        assert(RY_180_4X4@[i] == if i == 0 || i == 10 {
            0xBF80_0000u32
        } else if i % 5 == 0 {
            single::ONE_BITS
        } else {
            0u32
        });
    }
    transform::small_transforms_multiply_exactly(m, RY_180_4X4@, c, half, 0x4000, 1);
    let cells = Seq::new(
        16,
        |i: int|
            if i < 4 || 8 <= i < 12 {
                -c[i]
            } else {
                c[i]
            },
    );
    let d = transform::applied_to_columns(c, half);
    assert forall|i: int| 0 <= i < 16 implies d[i] == cells[i] by {
        let k = i % 4;
        let (x, y, z, w) = (c[k], c[4 + k], c[8 + k], c[12 + k]);
        assert(-1 * x == -x && 1 * y == y && -1 * z == -z && 1 * w == w && 0 * x == 0 && 0 * y == 0
            && 0 * z == 0 && 0 * w == 0);
        assert(i / 4 == 0 || i / 4 == 1 || i / 4 == 2 || i / 4 == 3);
    }
    assert(d =~= cells);
}

/// Without a bone, a placement is turned to the other handedness and given in metres.
pub proof fn loose_placements_are_mirrored(m: Seq<u32>, mirrors: bool, n: Seq<int>)
    requires
        transform::cells_are(m, n),
        transform::within(n, 0x4000),
    ensures
        exact::stands_for(emitted(m, None, mirrors)[12], 15 * n[12], 0),
        exact::stands_for(emitted(m, None, mirrors)[13], 15 * n[13], 0),
        exact::stands_for(emitted(m, None, mirrors)[14], -15 * n[14], 0),
{
    metres_mirror_depth(m, n);
}

/// Going to metres and to the other handedness: depths change their sign.
pub proof fn metres_mirror_depth(m: Seq<u32>, n: Seq<int>)
    requires
        transform::cells_are(m, n),
        transform::within(n, 0x4000),
    ensures
        exact::stands_for(skel_ext::in_metres(skel_ext::z_negated(m))[12], 15 * n[12], 0),
        exact::stands_for(skel_ext::in_metres(skel_ext::z_negated(m))[13], 15 * n[13], 0),
        exact::stands_for(skel_ext::in_metres(skel_ext::z_negated(m))[14], -15 * n[14], 0),
{
    let cells = Seq::new(
        16,
        |i: int|
            if skel_ext::flips_sign(i) {
                -n[i]
            } else {
                n[i]
            },
    );
    let z = skel_ext::z_negated(m);
    assert forall|i: int| 0 <= i < 16 implies exact::stands_for(#[trigger] z[i], cells[i], 0) by {
        assert(exact::stands_for(m[i], n[i], 0));
        exact::negations(m[i], n[i], 0);
    }
    assert forall|i: int| 0 <= i < 16 implies -0x1_0000 <= #[trigger] cells[i] <= 0x1_0000 by {
        assert(-0x4000 <= n[i] <= 0x4000);
    }
    skel_ext_layout::units_are_fifteen_metres(z, cells);
    assert(15 * (-n[14]) == -15 * n[14]);
}

/// Of several bones with one hash the first one counts.
pub proof fn first_bones_count(bones: Seq<BoneRest>, p1_hash: u32, i: int, k: int)
    requires
        0 <= i <= k < bones.len(),
        bones[k].p1_hash == p1_hash,
        forall|j: int| i <= j < k ==> (#[trigger] bones[j]).p1_hash != p1_hash,
    ensures
        rest_from(bones, p1_hash, i) == Some(bones[k].rest@),
    decreases k - i,
{
    if i < k {
        first_bones_count(bones, p1_hash, i + 1, k);
    }
}

/// Two placements share a cell if their hashes agree and their places agree to a hundredth
/// of a unit: whole places are a hundred cells apart.
pub proof fn cells_are_hundredths(p: LocatedView, n: Seq<int>)
    requires
        transform::cells_are(p.placement.matrix, n),
        transform::within(n, 0x1_0000),
    ensures
        cell_of(p).tag == p.placement.p0_hash,
        cell_of(p).x == 100 * n[12],
        cell_of(p).y == 100 * n[13],
        cell_of(p).z == 100 * n[14],
{
    lemma2_to64();
    arith::sizes_by_parts(HUNDRED_BITS);
    lemma_pow2_adds(17, 132);
    assert(0xC8_0000 * pow2(132) == 100 * (0x2_0000 * pow2(132)));
    assert(exact::stands_for(HUNDRED_BITS, 100, 0));
    let m = p.placement.matrix;
    assert forall|i: int| 12 <= i < 15 implies #[trigger] arith::nearest_whole(
        arith::product(m[i], HUNDRED_BITS),
    ) == 100 * n[i] by {
        assert(exact::stands_for(m[i], n[i], 0));
        assert(-0x1_0000 <= n[i] <= 0x1_0000);
        exact::products(m[i], HUNDRED_BITS, n[i], 100, 0, 0);
        skel_ext_layout::whole_numbers_are_nearest(
            arith::product(m[i], HUNDRED_BITS),
            n[i] * 100,
        );
    }
}

/// How many of the first `n` kept placements name a bone.
pub open spec fn uses_of(p: Seq<LocatedView>, kept: Seq<int>, hash: u32, n: int) -> int
    decreases n,
{
    if n <= 0 {
        0
    } else {
        uses_of(p, kept, hash, n - 1) + if p[kept[n - 1]].placement.p1_hash == hash {
            1int
        } else {
            0int
        }
    }
}

/// Each bone that the skeleton lacks is listed once, with the number of kept placements
/// that name it; bones that it has are not listed.
#[verifier::rlimit(50)]
pub proof fn missing_bones_are_counted(
    p: Seq<LocatedView>,
    skeleton: Skeleton,
    kept: Seq<int>,
    n: int,
    hash: u32,
)
    requires
        0 <= n <= kept.len(),
        n <= u64::MAX,
    ensures
        match missing_from(missing_bones(p, skeleton, kept, n), hash, 0) {
            Some(i) => {
                &&& 0 <= i < missing_bones(p, skeleton, kept, n).len()
                &&& skeleton.rest(hash) is None
                &&& missing_bones(p, skeleton, kept, n)[i].p1_hash == hash
                &&& missing_bones(p, skeleton, kept, n)[i].count == uses_of(p, kept, hash, n)
                &&& uses_of(p, kept, hash, n) > 0
                &&& forall|j: int|
                    0 <= j < missing_bones(p, skeleton, kept, n).len() && j != i
                        ==> (#[trigger] missing_bones(p, skeleton, kept, n)[j]).p1_hash != hash
            },
            None => skeleton.rest(hash) is Some || uses_of(p, kept, hash, n) == 0,
        },
        0 <= uses_of(p, kept, hash, n) <= n,
    decreases n,
{
    let now = missing_bones(p, skeleton, kept, n);
    if n > 0 {
        let before = missing_bones(p, skeleton, kept, n - 1);
        let last = p[kept[n - 1]].placement.p1_hash;
        missing_bones_are_counted(p, skeleton, kept, n - 1, hash);
        missing_bones_are_counted(p, skeleton, kept, n - 1, last);
        entries_are_found(before, hash, 0);
        entries_are_found(before, last, 0);
        if skeleton.rest(last) is None {
            entries_are_found(now, hash, 0);
            match missing_from(before, last, 0) {
                Some(i) => {
                    assert(now == before.update(
                        i,
                        MissingBone { p1_hash: last, count: (before[i].count + 1) as u64 },
                    ));
                    if hash == last {
                        assert(now[i].p1_hash == hash);
                    } else {
                        match missing_from(before, hash, 0) {
                            Some(j) => {
                                assert(now[j] == before[j]);
                            },
                            None => {
                                assert forall|j: int| 0 <= j < now.len() implies (
                                #[trigger] now[j]).p1_hash != hash by {
                                    assert(before[j].p1_hash != hash || j == i);
                                }
                            },
                        }
                    }
                },
                None => {
                    assert(now == before.push(MissingBone { p1_hash: last, count: 1 }));
                    assert(now[before.len() as int].p1_hash == last);
                    match missing_from(before, hash, 0) {
                        Some(j) => {
                            assert(now[j] == before[j]);
                        },
                        None => {
                            assert forall|j: int| 0 <= j < before.len() implies (
                            #[trigger] now[j]).p1_hash != hash by {
                                assert(before[j].p1_hash != hash);
                            }
                        },
                    }
                },
            }
        }
    }
}

proof fn entries_are_found(list: Seq<MissingBone>, hash: u32, i: int)
    requires
        0 <= i,
    ensures
        match missing_from(list, hash, i) {
            Some(k) => i <= k < list.len() && list[k].p1_hash == hash,
            None => forall|k: int| i <= k < list.len() ==> (#[trigger] list[k]).p1_hash != hash,
        },
    decreases list.len() - i,
{
    if i < list.len() && list[i].p1_hash != hash {
        entries_are_found(list, hash, i + 1);
    }
}

/// Ranking loses no entry and adds none.
pub proof fn ranking_keeps_every_entry(list: Seq<MissingBone>, n: int)
    requires
        0 <= n <= list.len(),
    ensures
        ranked(list, n).to_multiset() == list.take(n).to_multiset(),
        ranked(list, n).len() == n,
    decreases n,
{
    broadcast use vstd::seq_lib::group_to_multiset_ensures;

    if n > 0 {
        ranking_keeps_every_entry(list, n - 1);
        let before = ranked(list, n - 1);
        inserting_adds_one(before, list[n - 1]);
        assert(list.take(n) =~= list.take(n - 1).push(list[n - 1]));
    } else {
        assert(list.take(0) =~= Seq::empty());
    }
}

proof fn inserting_adds_one(list: Seq<MissingBone>, item: MissingBone)
    ensures
        ranked_in(list, item).to_multiset() == list.to_multiset().insert(item),
        ranked_in(list, item).len() == list.len() + 1,
    decreases list.len(),
{
    broadcast use vstd::seq_lib::group_to_multiset_ensures;

    if list.len() == 0 {
        assert(ranked_in(list, item) =~= list.push(item));
    } else if list.last().count < item.count {
        inserting_adds_one(list.drop_last(), item);
        assert(list =~= list.drop_last().push(list.last()));
        assert(list.drop_last().to_multiset().insert(item).insert(list.last())
            =~= list.drop_last().to_multiset().insert(list.last()).insert(item));
    }
}

/// A candidate carries the hashes of its own placement, written as eight hexadecimal
/// digits, and the segment of the file that its placement stands in.
pub proof fn candidates_carry_their_hashes(
    files: Seq<OwnedSkelExt>,
    p: Seq<LocatedView>,
    skeleton: Option<Skeleton>,
    i: int,
)
    requires
        0 <= i < p.len(),
        0 <= p[i].file < files.len(),
    ensures
        ({
            let c = candidate_of(files, p, skeleton, i);
            &&& c.placement == i
            &&& c.segment == files[p[i].file].segment@
            &&& c.p0_hash.take(2) == "0x"@
            &&& c.p1_hash.take(2) == "0x"@
            &&& text_laws::number_of(
                c.p0_hash.skip(c.p0_hash.len() - text::hex(p[i].placement.p0_hash as int).len()),
                16,
            ) == p[i].placement.p0_hash
            &&& text_laws::number_of(
                c.p1_hash.skip(c.p1_hash.len() - text::hex(p[i].placement.p1_hash as int).len()),
                16,
            ) == p[i].placement.p1_hash
            &&& c.p0_hash.len() >= 10
            &&& c.p1_hash.len() >= 10
        }),
{
    hashes_read_back(p[i].placement.p0_hash);
    hashes_read_back(p[i].placement.p1_hash);
}

proof fn prefixes_stand_in_front(padded: Seq<char>, digits: Seq<char>)
    requires
        padded.len() >= digits.len(),
        padded.skip(padded.len() - digits.len()) == digits,
    ensures
        ("0x"@ + padded).take(2) == "0x"@,
        ("0x"@ + padded).len() == padded.len() + 2,
        ("0x"@ + padded).skip(padded.len() + 2 - digits.len()) == digits,
{
    reveal_strlit("0x");
    let s = "0x"@ + padded;
    assert(s.take(2) =~= "0x"@);
    assert(s.skip(padded.len() + 2 - digits.len()) =~= padded.skip(padded.len() - digits.len()));
}

#[verifier::rlimit(50)]
#[verifier::spinoff_prover]
proof fn hashes_read_back(n: u32)
    ensures
        hash_text(n).take(2) == "0x"@,
        hash_text(n).len() >= 10,
        text_laws::number_of(hash_text(n).skip(hash_text(n).len() - text::hex(n as int).len()), 16)
            == n,
{
    let digits = text::hex(n as int);
    text_laws::padding_puts_zeros_in_front(digits, 8);
    prefixes_stand_in_front(text::zero_padded(digits, 8), digits);
    assert(digits == text::digits(n as nat, 16, true));
    text_laws::written_numbers_read_back(n as nat, 16, true);
}

/// A candidate says where its placement stands in the file: the offset of the record reads
/// back, and type, count and index are those of the placement.
#[verifier::rlimit(50)]
#[verifier::spinoff_prover]
pub proof fn candidates_say_where_they_stand(
    files: Seq<OwnedSkelExt>,
    p: Seq<LocatedView>,
    skeleton: Option<Skeleton>,
    i: int,
)
    requires
        0 <= i < p.len(),
        0 <= p[i].file < files.len(),
    ensures
        ({
            let c = candidate_of(files, p, skeleton, i);
            let pl = p[i].placement;
            &&& c.record_offset.take(2) == "0x"@
            &&& text_laws::number_of(c.record_offset.skip(2), 16) == pl.record_offset
            &&& c.record_type == pl.record_type
            &&& c.record_count == pl.record_count
            &&& c.matrix_index == pl.matrix_index
        }),
{
    let offset = p[i].placement.record_offset;
    let digits = text::hex(offset as int);
    assert(digits.skip(0) =~= digits);
    prefixes_stand_in_front(digits, digits);
    assert(digits == text::digits(offset as nat, 16, true));
    text_laws::written_numbers_read_back(offset as nat, 16, true);
}

/// Of a ranked list the items that come first are shown, sixteen at most.
pub proof fn the_first_items_are_shown(list: Seq<MissingBone>, i: int)
    requires
        0 <= i < list.len(),
    ensures
        i < 16 <==> i < top(list).len(),
        i < 16 ==> top(list)[i] == list[i],
        top(list).len() <= list.len(),
{
}

} // verus!
