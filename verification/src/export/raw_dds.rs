//! Dumping texture files with repacked siblings.
//!
//! A texture is spread over several files, one or more mip levels each. Files named
//! `<stem>_n` get the siblings `<stem>_normal` and `<stem>_nbmask`, files named
//! `<stem>_mg` the sibling `<stem>_mr`.
use vstd::prelude::*;

use crate::export::pixels;
use crate::export::texture;
use crate::export::texture::BlockFormat;
use crate::export::texture::TextureError;
use crate::export::texture_names::DDS_MIP_SUFFIXES;
use crate::text;
use crate::text_laws;

verus! {

/// The suffix of mip level file `k`.
pub open spec fn mip_suffix(k: int) -> Seq<char> {
    DDS_MIP_SUFFIXES@[k]@
}

/// The first mip suffix that a name ends with.
pub open spec fn ends_with_mip(name: Seq<char>, k: int) -> bool {
    &&& 0 <= k < 4
    &&& text::has_suffix(name, mip_suffix(k))
    &&& forall|j: int| 0 <= j < k ==> !text::has_suffix(name, #[trigger] mip_suffix(j))
}

fn find_mip_suffix(name: &str) -> (r: Option<usize>)
    ensures
        match r {
            Some(k) => ends_with_mip(name@, k as int),
            None => forall|k: int| 0 <= k < 4 ==> !text::has_suffix(name@, #[trigger] mip_suffix(k)),
        },
{
    let mut k: usize = 0;
    while k < 4
        invariant
            k <= 4,
            forall|j: int| 0 <= j < k ==> !text::has_suffix(name@, #[trigger] mip_suffix(j)),
        decreases 4 - k,
    {
        if text::ends_with(name, DDS_MIP_SUFFIXES[k]) {
            assert(text::has_suffix(name@, mip_suffix(k as int)));
            return Some(k);
        }
        k += 1;
    }
    None
}

/// One file of a texture.
#[derive(Debug)]
pub struct MipFile {
    pub path: String,
    pub file_name: String,
    pub mip_suffix: String,
}

/// Whether `files` are the mip level files of a texture whose path without suffix is
/// `stem`.
pub open spec fn are_mip_files(files: Seq<MipFile>, stem: Seq<char>) -> bool {
    &&& files.len() == 4
    &&& forall|k: int|
        0 <= k < 4 ==> (#[trigger] files[k]).path@ == stem + mip_suffix(k) && files[k].file_name@
            == text::after_last(stem + mip_suffix(k), '/') && files[k].mip_suffix@ == mip_suffix(k)
}

/// All mip level files of the texture that a path belongs to. A path without mip
/// suffix belongs to none.
pub fn mip_files(resolved_path: &str) -> (r: Vec<MipFile>)
    ensures
        forall|k: int|
            ends_with_mip(resolved_path@, k) ==> are_mip_files(
                r@,
                resolved_path@.take(resolved_path@.len() - mip_suffix(k).len()),
            ),
        (forall|k: int|
            0 <= k < 4 ==> !text::has_suffix(resolved_path@, #[trigger] mip_suffix(k))) ==> r@.len()
            == 0,
{
    let mut out: Vec<MipFile> = Vec::new();
    let found: usize = match find_mip_suffix(resolved_path) {
        Some(k) => k,
        None => {
            return out;
        },
    };
    let stem = match text::strip_suffix(resolved_path, DDS_MIP_SUFFIXES[found]) {
        Some(stem) => stem,
        None => {
            return out;
        },
    };
    let mut k: usize = 0;
    while k < 4
        invariant
            k <= 4,
            out@.len() == k,
            forall|j: int|
                0 <= j < k ==> (#[trigger] out@[j]).path@ == stem@ + mip_suffix(j)
                    && out@[j].file_name@ == text::after_last(stem@ + mip_suffix(j), '/')
                    && out@[j].mip_suffix@ == mip_suffix(j),
        decreases 4 - k,
    {
        let path = text::concat(stem.as_str(), DDS_MIP_SUFFIXES[k]);
        let file_name = text::tail_after(path.as_str(), '/');
        out.push(MipFile { path, file_name, mip_suffix: text::copy(DDS_MIP_SUFFIXES[k]) });
        k += 1;
    }
    proof {
        assert forall|j: int| ends_with_mip(resolved_path@, j) implies j == found by {
            if j < found {
                assert(!text::has_suffix(resolved_path@, mip_suffix(j)));
            }
            if found < j {
                assert(!text::has_suffix(resolved_path@, mip_suffix(found as int)));
            }
        }
    }
    out
}

/// A file to write.
#[derive(Debug)]
pub struct SiblingFile {
    pub name: String,
    pub contents: Vec<u8>,
}

/// Name of the sibling that replaces the ending of a stem.
pub open spec fn sibling_name(
    stem: Seq<char>,
    ending: Seq<char>,
    replacement: Seq<char>,
    suffix: Seq<char>,
) -> Seq<char> {
    stem.take(stem.len() - ending.len()) + replacement + suffix
}

pub open spec fn normal_name(stem: Seq<char>, suffix: Seq<char>) -> Seq<char> {
    sibling_name(stem, "_n"@, "_normal"@, suffix)
}

pub open spec fn mask_name(stem: Seq<char>, suffix: Seq<char>) -> Seq<char> {
    sibling_name(stem, "_n"@, "_nbmask"@, suffix)
}

pub open spec fn mr_name(stem: Seq<char>, suffix: Seq<char>) -> Seq<char> {
    sibling_name(stem, "_mg"@, "_mr"@, suffix)
}

/// Whether a file is the sibling of a given name with the given pixels, compressed.
pub open spec fn is_sibling(
    f: SiblingFile,
    name: Seq<char>,
    w: u32,
    h: u32,
    p: Seq<u8>,
    format: BlockFormat,
) -> bool {
    f.name@ == name && texture::is_compressed(w, h, p, format, f.contents@)
}

/// Whether a name is that of a file with siblings: a normal or metallic-gloss map.
pub open spec fn has_siblings(stem: Seq<char>) -> bool {
    text::has_suffix(stem, "_n"@) || text::has_suffix(stem, "_mg"@)
}

/// The format that the first sibling of a file is compressed to.
pub open spec fn source_format(stem: Seq<char>) -> BlockFormat {
    if text::has_suffix(stem, "_n"@) {
        BlockFormat::Bc7
    } else {
        BlockFormat::Bc1
    }
}

/// Whether `files` are the siblings still missing of a normal map, its pixels being
/// `p`.
pub open spec fn are_normal_siblings(
    files: Seq<SiblingFile>,
    stem: Seq<char>,
    suffix: Seq<char>,
    present: Seq<Seq<char>>,
    w: u32,
    h: u32,
    p: Seq<u8>,
) -> bool {
    let normals = pixels::with_reconstructed_z(p);
    let mask = pixels::blue_as_red(p);
    let lacks_normal = !present.contains(normal_name(stem, suffix));
    let lacks_mask = !present.contains(mask_name(stem, suffix));
    if lacks_normal && lacks_mask {
        &&& files.len() == 2
        &&& is_sibling(files[0], normal_name(stem, suffix), w, h, normals, BlockFormat::Bc7)
        &&& is_sibling(files[1], mask_name(stem, suffix), w, h, mask, BlockFormat::Bc4)
    } else if lacks_normal {
        &&& files.len() == 1
        &&& is_sibling(files[0], normal_name(stem, suffix), w, h, normals, BlockFormat::Bc7)
    } else if lacks_mask {
        &&& files.len() == 1
        &&& is_sibling(files[0], mask_name(stem, suffix), w, h, mask, BlockFormat::Bc4)
    } else {
        files.len() == 0
    }
}

/// Whether nothing has to be made for a file: it has no siblings, or all of them are
/// present.
pub open spec fn needs_nothing(
    stem: Seq<char>,
    suffix: Seq<char>,
    present: Seq<Seq<char>>,
) -> bool {
    if text::has_suffix(stem, "_n"@) {
        present.contains(normal_name(stem, suffix)) && present.contains(mask_name(stem, suffix))
    } else if text::has_suffix(stem, "_mg"@) {
        present.contains(mr_name(stem, suffix))
    } else {
        true
    }
}

/// Whether a result is that of making the siblings of a file that are not present yet.
pub open spec fn is_repacked(
    r: Result<Vec<SiblingFile>, TextureError>,
    stem: Seq<char>,
    suffix: Seq<char>,
    contents: Seq<u8>,
    present: Seq<Seq<char>>,
) -> bool {
    if needs_nothing(stem, suffix, present) {
        r matches Ok(files) && files@.len() == 0
    } else {
        match texture::decoded_dds(contents) {
            Err(f) => r matches Err(e) && e@ == f,
            Ok((w, h, p)) => if !texture::is_compressible(w, h, source_format(stem)) {
                r matches Err(e) && e@ == texture::too_large()
            } else {
                r matches Ok(files) && if text::has_suffix(stem, "_n"@) {
                    are_normal_siblings(files@, stem, suffix, present, w, h, p)
                } else {
                    &&& files@.len() == 1
                    &&& is_sibling(
                        files@[0],
                        mr_name(stem, suffix),
                        w,
                        h,
                        pixels::metallic_roughness(p),
                        BlockFormat::Bc1,
                    )
                }
            },
        }
    }
}

/// Makes the siblings of a texture file that are not present yet. `stem` is the file
/// name without its mip suffix.
pub fn make_siblings(stem: &str, suffix: &str, contents: &[u8], present: &Vec<String>) -> (r: Result<
    Vec<SiblingFile>,
    TextureError,
>)
    ensures
        is_repacked(r, stem@, suffix@, contents@, text::texts(present@)),
{
    let mut out: Vec<SiblingFile> = Vec::new();
    if let Some(base) = text::strip_suffix(stem, "_n") {
        let normal = text::concat3(base.as_str(), "_normal", suffix);
        let mask = text::concat3(base.as_str(), "_nbmask", suffix);
        let need_normal = !text::contains_text(present, normal.as_str());
        let need_mask = !text::contains_text(present, mask.as_str());
        if !need_normal && !need_mask {
            return Ok(out);
        }
        let (normal_dds, mask_dds) = texture::split_wg_normal_dds(contents)?;
        if need_normal {
            out.push(SiblingFile { name: normal, contents: normal_dds });
        }
        if need_mask {
            out.push(SiblingFile { name: mask, contents: mask_dds });
        }
        return Ok(out);
    }
    if let Some(base) = text::strip_suffix(stem, "_mg") {
        let mr = text::concat3(base.as_str(), "_mr", suffix);
        if text::contains_text(present, mr.as_str()) {
            return Ok(out);
        }
        let mr_dds = texture::swizzle_wg_mg_dds_to_mr(contents)?;
        out.push(SiblingFile { name: mr, contents: mr_dds });
    }
    Ok(out)
}

/// The names of files.
pub open spec fn file_names(files: Seq<SiblingFile>) -> Seq<Seq<char>> {
    Seq::new(files.len(), |i: int| files[i].name@)
}

/// Once the siblings of a file that were missing are written, nothing is left to do for
/// it.
pub proof fn repacking_is_idempotent(
    r: Result<Vec<SiblingFile>, TextureError>,
    stem: Seq<char>,
    suffix: Seq<char>,
    contents: Seq<u8>,
    present: Seq<Seq<char>>,
)
    requires
        is_repacked(r, stem, suffix, contents, present),
        r is Ok,
    ensures
        needs_nothing(stem, suffix, present + file_names(r->Ok_0@)),
{
    let files = r->Ok_0@;
    let all = present + file_names(files);
    assert forall|n: Seq<char>| present.contains(n) implies all.contains(n) by {
        let k = choose|k: int| 0 <= k < present.len() && present[k] == n;
        assert(all[k] == n);
    }
    assert forall|i: int| 0 <= i < files.len() implies all.contains((#[trigger] files[i]).name@) by {
        assert(all[present.len() + i] == files[i].name@);
    }
}

/// What a directory entry is to the repacker: its name without mip suffix and the
/// suffix in lower case.
pub open spec fn is_texture_file(name: Seq<char>, k: int) -> bool {
    ends_with_mip(text::lowercase(name), k) && name.len() >= 4
}

/// Splits the name of a texture file from its mip suffix, whose case does not matter.
/// Other names give nothing.
pub fn split_texture_name(file_name: &str) -> (r: Option<(String, String)>)
    ensures
        match r {
            Some((stem, suffix)) => exists|k: int|
                #![trigger mip_suffix(k)]
                is_texture_file(file_name@, k) && suffix@ == mip_suffix(k) && stem@
                    == file_name@.take(file_name@.len() - 4),
            None => forall|k: int| !is_texture_file(file_name@, k),
        },
{
    let lower = text::to_lowercase(file_name);
    let v = text::chars_of(file_name);
    match find_mip_suffix(lower.as_str()) {
        Some(k) => if v.len() >= 4 {
            let stem = text::slice_text(&v, 0, v.len() - 4);
            assert(stem@ =~= file_name@.take(file_name@.len() - 4));
            assert(mip_suffix(k as int) == DDS_MIP_SUFFIXES@[k as int]@);
            Some((stem, text::copy(DDS_MIP_SUFFIXES[k])))
        } else {
            None
        },
        None => None,
    }
}

/// Whether a file counts as processed by the repacker.
pub fn is_repackable(stem: &str) -> (r: bool)
    ensures
        r == has_siblings(stem@),
{
    text::ends_with(stem, "_n") || text::ends_with(stem, "_mg")
}

/// The name of a texture file without its mip suffix.
pub open spec fn texture_stem(name: Seq<char>) -> Seq<char> {
    name.take(name.len() - 4)
}

/// Whether a file has siblings: a texture file that is a normal or metallic-gloss map.
pub open spec fn is_source(name: Seq<char>) -> bool {
    (exists|k: int| #[trigger] is_texture_file(name, k)) && has_siblings(texture_stem(name))
}

/// The mip suffix of a texture file, in lower case.
pub open spec fn texture_suffix(name: Seq<char>) -> Seq<char> {
    mip_suffix(choose|k: int| is_texture_file(name, k))
}

/// Whether a result is that of repacking a file of the given name and contents. A file
/// without siblings is passed over.
pub open spec fn is_step(
    file: (Seq<char>, Seq<u8>),
    present: Seq<Seq<char>>,
    r: Option<Result<Vec<SiblingFile>, TextureError>>,
) -> bool {
    if is_source(file.0) {
        r is Some && is_repacked(
            r->0,
            texture_stem(file.0),
            texture_suffix(file.0),
            file.1,
            present,
        )
    } else {
        r is None
    }
}

/// 1 for a file that has siblings, else 0.
pub open spec fn source_count(name: Seq<char>) -> nat {
    if is_source(name) {
        1
    } else {
        0
    }
}

/// Repacks the texture files of a directory, file by file.
#[derive(Debug)]
pub struct DirRepacker {
    /// Names of the files in the directory that siblings are written to.
    pub present: Vec<String>,
    /// Files that have siblings.
    pub processed: usize,
    /// Siblings that were written.
    pub written: usize,
}

impl DirRepacker {
    /// A repacker that has done nothing, for a directory with the given files.
    pub fn new(present: Vec<String>) -> (r: DirRepacker)
        ensures
            r.present == present,
            r.processed == 0,
            r.written == 0,
    {
        DirRepacker { present, processed: 0, written: 0 }
    }

    /// Whether the contents of a file are needed.
    pub fn wants(&self, file_name: &str) -> (r: bool)
        ensures
            r == is_source(file_name@),
    {
        match split_texture_name(file_name) {
            Some((stem, _)) => is_repackable(stem.as_str()),
            None => false,
        }
    }

    /// Counts a file and makes its siblings that are not present yet. A file without
    /// siblings is passed over.
    pub fn repack(&mut self, file_name: &str, contents: &[u8]) -> (r: Option<
        Result<Vec<SiblingFile>, TextureError>,
    >)
        requires
            old(self).processed < usize::MAX,
        ensures
            final(self).present == old(self).present,
            final(self).written == old(self).written,
            final(self).processed == old(self).processed + source_count(file_name@),
            is_step((file_name@, contents@), text::texts(old(self).present@), r),
    {
        match split_texture_name(file_name) {
            Some((stem, suffix)) => {
                proof {
                    suffixes_are_unique(file_name@);
                }
                if is_repackable(stem.as_str()) {
                    self.processed = self.processed + 1;
                    Some(make_siblings(stem.as_str(), suffix.as_str(), contents, &self.present))
                } else {
                    None
                }
            },
            None => None,
        }
    }

    /// Records that a sibling was written.
    pub fn record_written(&mut self, name: String)
        requires
            old(self).written < usize::MAX,
        ensures
            text::texts(final(self).present@) == text::texts(old(self).present@).push(name@),
            final(self).written == old(self).written + 1,
            final(self).processed == old(self).processed,
    {
        let ghost before = text::texts(self.present@);
        self.present.push(name);
        self.written = self.written + 1;
        assert(text::texts(self.present@) =~= before.push(name@));
    }
}

/// A name has at most one mip suffix.
proof fn suffixes_are_unique(name: Seq<char>)
    ensures
        forall|j: int, k: int| #[trigger]
            is_texture_file(name, j) && #[trigger] is_texture_file(name, k) ==> j == k,
{
    let lower = text::lowercase(name);
    assert forall|j: int, k: int| #[trigger]
        is_texture_file(name, j) && #[trigger] is_texture_file(name, k) implies j == k by {
        if j < k {
            assert(!text::has_suffix(lower, mip_suffix(j)));
        }
        if k < j {
            assert(!text::has_suffix(lower, mip_suffix(k)));
        }
    }
}

// ---- Whole directories ------------------------------------------------------

/// The names in a directory once the siblings in the first `n` results are written to it.
pub open spec fn present_after(
    present: Seq<Seq<char>>,
    results: Seq<Option<Result<Vec<SiblingFile>, TextureError>>>,
    n: int,
) -> Seq<Seq<char>>
    decreases n,
{
    if n <= 0 {
        present
    } else {
        let before = present_after(present, results, n - 1);
        match results[n - 1] {
            Some(Ok(files)) => before + file_names(files@),
            _ => before,
        }
    }
}

/// Whether results are those of repacking files one after the other, every sibling being
/// written at once.
pub open spec fn is_run(
    files: Seq<(Seq<char>, Seq<u8>)>,
    present: Seq<Seq<char>>,
    results: Seq<Option<Result<Vec<SiblingFile>, TextureError>>>,
) -> bool {
    &&& results.len() == files.len()
    &&& forall|i: int|
        0 <= i < files.len() ==> is_step(
            files[i],
            present_after(present, results, i),
            #[trigger] results[i],
        )
}

/// Number of files that have siblings.
pub open spec fn count_sources(files: Seq<(Seq<char>, Seq<u8>)>) -> nat
    decreases files.len(),
{
    if files.len() == 0 {
        0
    } else {
        count_sources(files.drop_last()) + source_count(files.last().0)
    }
}

/// Number of siblings in results.
pub open spec fn count_written(
    results: Seq<Option<Result<Vec<SiblingFile>, TextureError>>>,
) -> nat
    decreases results.len(),
{
    if results.len() == 0 {
        0
    } else {
        count_written(results.drop_last()) + match results.last() {
            Some(Ok(files)) => files@.len(),
            _ => 0,
        }
    }
}

/// The siblings of a file have none themselves: their names are not those of normal or
/// metallic-gloss maps.
pub proof fn siblings_are_no_sources(
    r: Result<Vec<SiblingFile>, TextureError>,
    name: Seq<char>,
    contents: Seq<u8>,
    present: Seq<Seq<char>>,
)
    requires
        is_source(name),
        is_repacked(r, texture_stem(name), texture_suffix(name), contents, present),
        r is Ok,
    ensures
        forall|i: int| 0 <= i < r->Ok_0@.len() ==> !is_source((#[trigger] r->Ok_0@[i]).name@),
{
    reveal_strlit(".dd0");
    reveal_strlit(".dd1");
    reveal_strlit(".dd2");
    reveal_strlit(".dds");
    reveal_strlit("_n");
    reveal_strlit("_mg");
    reveal_strlit("_normal");
    reveal_strlit("_nbmask");
    reveal_strlit("_mr");
    let stem = texture_stem(name);
    let suffix = texture_suffix(name);
    let k = choose|k: int| is_texture_file(name, k);
    assert(is_texture_file(name, k));
    assert(suffix.len() == 4);
    let files = r->Ok_0@;
    assert forall|i: int| 0 <= i < files.len() implies !is_source((#[trigger] files[i]).name@) by {
        let sibling = files[i].name@;
        let body = texture_stem(sibling);
        if text::has_suffix(stem, "_n"@) {
            assert(sibling == normal_name(stem, suffix) || sibling == mask_name(stem, suffix));
            if sibling == normal_name(stem, suffix) {
                assert(body =~= stem.take(stem.len() - 2) + "_normal"@);
                assert(body.last() == 'l');
            } else {
                assert(body =~= stem.take(stem.len() - 2) + "_nbmask"@);
                assert(body.last() == 'k');
            }
        } else {
            assert(sibling == mr_name(stem, suffix));
            assert(body =~= stem.take(stem.len() - 3) + "_mr"@);
            assert(body.last() == 'r');
        }
        if text::has_suffix(body, "_n"@) {
            assert(body[body.len() - 2 + 1] == "_n"@[1]);
        }
        if text::has_suffix(body, "_mg"@) {
            assert(body[body.len() - 3 + 2] == "_mg"@[2]);
        }
    }
}

/// Writing siblings removes no names.
proof fn names_stay_present(
    present: Seq<Seq<char>>,
    results: Seq<Option<Result<Vec<SiblingFile>, TextureError>>>,
    m: int,
    n: int,
)
    requires
        m <= n,
    ensures
        forall|name: Seq<char>|
            present_after(present, results, m).contains(name) ==> #[trigger] present_after(
                present,
                results,
                n,
            ).contains(name),
        forall|name: Seq<char>|
            present.contains(name) ==> #[trigger] present_after(present, results, n).contains(name),
    decreases n,
{
    if n > 0 {
        let before = present_after(present, results, n - 1);
        let now = present_after(present, results, n);
        if m < n {
            names_stay_present(present, results, m, n - 1);
        } else {
            names_stay_present(present, results, n - 1, n - 1);
        }
        assert forall|name: Seq<char>| before.contains(name) implies #[trigger] now.contains(name) by {
            let k = choose|k: int| 0 <= k < before.len() && before[k] == name;
            assert(now[k] == name);
        }
    }
}

/// What is made for a file stays made: with more names present, nothing more is needed.
proof fn nothing_stays_needed(
    stem: Seq<char>,
    suffix: Seq<char>,
    fewer: Seq<Seq<char>>,
    more: Seq<Seq<char>>,
)
    requires
        needs_nothing(stem, suffix, fewer),
        forall|name: Seq<char>| fewer.contains(name) ==> #[trigger] more.contains(name),
    ensures
        needs_nothing(stem, suffix, more),
{
}

/// Every sibling written is one that some file was given.
proof fn written_names_are_siblings(
    files: Seq<(Seq<char>, Seq<u8>)>,
    present: Seq<Seq<char>>,
    results: Seq<Option<Result<Vec<SiblingFile>, TextureError>>>,
    n: int,
    name: Seq<char>,
)
    requires
        is_run(files, present, results),
        0 <= n <= results.len(),
        present_after(Seq::empty(), results, n).contains(name),
    ensures
        !is_source(name),
    decreases n,
{
    if n > 0 {
        let before = present_after(Seq::empty(), results, n - 1);
        if before.contains(name) {
            written_names_are_siblings(files, present, results, n - 1, name);
        } else {
            let now = present_after(Seq::empty(), results, n);
            let k = choose|k: int| 0 <= k < now.len() && now[k] == name;
            assert(is_step(files[n - 1], present_after(present, results, n - 1), results[n - 1]));
            if k < before.len() {
                assert(before[k] == name);
            }
            let made = results[n - 1]->0->Ok_0@;
            assert(made[k - before.len()].name@ == name);
            siblings_are_no_sources(
                results[n - 1]->0,
                files[n - 1].0,
                files[n - 1].1,
                present_after(present, results, n - 1),
            );
        }
    }
}

proof fn sources_without(files: Seq<(Seq<char>, Seq<u8>)>, i: int)
    requires
        0 <= i < files.len(),
    ensures
        count_sources(files) == count_sources(files.remove(i)) + source_count(files[i].0),
    decreases files.len(),
{
    let rest = files.remove(i);
    if i == files.len() - 1 {
        assert(rest =~= files.drop_last());
    } else {
        sources_without(files.drop_last(), i);
        assert(rest.drop_last() =~= files.drop_last().remove(i));
        assert(rest.last() == files.last());
    }
}

proof fn sources_do_not_depend_on_order(
    a: Seq<(Seq<char>, Seq<u8>)>,
    b: Seq<(Seq<char>, Seq<u8>)>,
)
    requires
        a.to_multiset() == b.to_multiset(),
    ensures
        count_sources(a) == count_sources(b),
    decreases a.len(),
{
    broadcast use vstd::seq_lib::group_to_multiset_ensures;

    assert(a.len() == a.to_multiset().len() && b.len() == b.to_multiset().len());
    if a.len() > 0 {
        let x = a.last();
        assert(a.contains(x));
        assert(b.to_multiset().count(x) > 0);
        assert(b.contains(x));
        let i = choose|i: int| 0 <= i < b.len() && b[i] == x;
        assert(a.remove(a.len() - 1) =~= a.drop_last());
        assert(a.drop_last().to_multiset() =~= b.remove(i).to_multiset());
        sources_do_not_depend_on_order(a.drop_last(), b.remove(i));
        sources_without(b, i);
    }
}

proof fn others_add_no_sources(
    files: Seq<(Seq<char>, Seq<u8>)>,
    others: Seq<(Seq<char>, Seq<u8>)>,
)
    requires
        forall|i: int| 0 <= i < others.len() ==> !is_source((#[trigger] others[i]).0),
    ensures
        count_sources(files + others) == count_sources(files),
    decreases others.len(),
{
    if others.len() == 0 {
        assert(files + others =~= files);
    } else {
        others_add_no_sources(files, others.drop_last());
        assert((files + others).drop_last() =~= files + others.drop_last());
        assert((files + others).last() == others.last());
    }
}

proof fn empty_results_write_nothing(
    results: Seq<Option<Result<Vec<SiblingFile>, TextureError>>>,
)
    requires
        forall|i: int|
            0 <= i < results.len() ==> ((#[trigger] results[i]) matches Some(Ok(files))
                ==> files@.len() == 0),
    ensures
        count_written(results) == 0,
    decreases results.len(),
{
    if results.len() > 0 {
        assert forall|i: int| 0 <= i < results.drop_last().len() implies (
        (#[trigger] results.drop_last()[i]) matches Some(Ok(files)) ==> files@.len() == 0) by {
            assert(results.drop_last()[i] == results[i]);
        }
        empty_results_write_nothing(results.drop_last());
    }
}

/// Repacking a directory again writes nothing. The second time there are the same files,
/// in any order, and possibly the siblings written the first time; everything that was
/// present or written is present. Then as many files have siblings as before, and none of
/// them lacks one that can be made.
pub proof fn repacking_a_directory_is_idempotent(
    files: Seq<(Seq<char>, Seq<u8>)>,
    present: Seq<Seq<char>>,
    first: Seq<Option<Result<Vec<SiblingFile>, TextureError>>>,
    siblings: Seq<(Seq<char>, Seq<u8>)>,
    files_again: Seq<(Seq<char>, Seq<u8>)>,
    present_again: Seq<Seq<char>>,
    second: Seq<Option<Result<Vec<SiblingFile>, TextureError>>>,
)
    requires
        is_run(files, present, first),
        forall|i: int|
            0 <= i < siblings.len() ==> present_after(
                Seq::empty(),
                first,
                first.len() as int,
            ).contains((#[trigger] siblings[i]).0),
        files_again.to_multiset() == (files + siblings).to_multiset(),
        forall|name: Seq<char>|
            present_after(present, first, first.len() as int).contains(name)
                ==> #[trigger] present_again.contains(name),
        is_run(files_again, present_again, second),
    ensures
        count_sources(files_again) == count_sources(files),
        count_written(second) == 0,
{
    let n = first.len() as int;
    assert forall|i: int| 0 <= i < siblings.len() implies !is_source((#[trigger] siblings[i]).0) by {
        written_names_are_siblings(files, present, first, n, siblings[i].0);
    }
    sources_do_not_depend_on_order(files_again, files + siblings);
    others_add_no_sources(files, siblings);
    assert forall|j: int| 0 <= j < second.len() implies ((#[trigger] second[j]) matches Some(Ok(made))
        ==> made@.len() == 0) by {
        let file = files_again[j];
        let seen = present_after(present_again, second, j);
        assert(is_step(file, seen, second[j]));
        if is_source(file.0) {
            assert((files + siblings).contains(file)) by {
                broadcast use vstd::seq_lib::group_to_multiset_ensures;

                assert(files_again.contains(file));
                assert((files + siblings).to_multiset().count(file) > 0);
            }
            let i = choose|i: int|
                0 <= i < (files + siblings).len() && (files + siblings)[i] == file;
            if i >= files.len() {
                assert(siblings[i - files.len()] == file);
            }
            assert(files[i] == file);
            let (stem, suffix) = (texture_stem(file.0), texture_suffix(file.0));
            let before = present_after(present, first, i);
            assert(is_step(files[i], before, first[i]));
            names_stay_present(present, first, i + 1, n);
            names_stay_present(present, first, i, i + 1);
            names_stay_present(present_again, second, 0, j);
            if first[i]->0 is Ok {
                repacking_is_idempotent(first[i]->0, stem, suffix, file.1, before);
                let after = present_after(present, first, i + 1);
                assert(after == before + file_names(first[i]->0->Ok_0@));
                assert forall|name: Seq<char>| after.contains(name) implies #[trigger] seen.contains(
                    name,
                ) by {
                    assert(present_after(present, first, n).contains(name));
                    assert(present_again.contains(name));
                }
                nothing_stays_needed(stem, suffix, after, seen);
            }
        }
    }
    empty_results_write_nothing(second);
}

// ---- Dumps ------------------------------------------------------------------

/// Keeps track of the files that a dump has written.
#[derive(Debug)]
pub struct RawDdsDumper {
    written: Vec<String>,
}

impl RawDdsDumper {
    /// Names of the files written so far.
    pub closed spec fn written_names(&self) -> Seq<Seq<char>> {
        text::texts(self.written@)
    }

    /// A dump that has written nothing.
    pub fn new() -> (r: RawDdsDumper)
        ensures
            r.written_names().len() == 0,
    {
        RawDdsDumper { written: Vec::new() }
    }

    /// Whether a file still has to be written.
    pub fn wants(&self, file_name: &str) -> (r: bool)
        ensures
            r == !self.written_names().contains(file_name@),
    {
        !text::contains_text(&self.written, file_name)
    }

    /// Records that a file was written.
    pub fn mark_written(&mut self, file_name: &str)
        ensures
            forall|n: Seq<char>| #[trigger]
                final(self).written_names().contains(n) <==> n == file_name@ || old(
                    self,
                ).written_names().contains(n),
    {
        let ghost before = text::texts(self.written@);
        self.written.push(text::copy(file_name));
        let ghost after = text::texts(self.written@);
        proof {
            assert(after =~= before.push(file_name@));
            assert forall|n: Seq<char>| #[trigger] after.contains(n) <==> n == file_name@
                || before.contains(n) by {
                if before.contains(n) {
                    let k = choose|k: int| 0 <= k < before.len() && before[k] == n;
                    assert(after[k] == n);
                }
                if n == file_name@ {
                    assert(after[before.len() as int] == n);
                }
                if after.contains(n) {
                    let k = choose|k: int| 0 <= k < after.len() && after[k] == n;
                    if k < before.len() {
                        assert(before[k] == n);
                    }
                }
            }
        }
    }

    /// The siblings of a file just written that the dump has not written yet. A name
    /// that does not end with the mip suffix has none.
    pub fn conformant_siblings(&self, file_name: &str, contents: &[u8], suffix: &str) -> (r: Result<
        Vec<SiblingFile>,
        TextureError,
    >)
        ensures
            if text::has_suffix(file_name@, suffix@) {
                is_repacked(
                    r,
                    file_name@.take(file_name@.len() - suffix@.len()),
                    suffix@,
                    contents@,
                    self.written_names(),
                )
            } else {
                r matches Ok(files) && files@.len() == 0
            },
    {
        match text::strip_suffix(file_name, suffix) {
            Some(stem) => make_siblings(stem.as_str(), suffix, contents, &self.written),
            None => Ok(Vec::new()),
        }
    }
}

/// The siblings of a texture are named after it: a normal file has one of its normals and
/// one of its mask, a metallic and gloss file one of metallic and roughness, with the same
/// ending.
pub proof fn siblings_are_named_after_their_source(stem: Seq<char>, suffix: Seq<char>)
    ensures
        normal_name(stem + "_n"@, suffix) == stem + "_normal"@ + suffix,
        mask_name(stem + "_n"@, suffix) == stem + "_nbmask"@ + suffix,
        mr_name(stem + "_mg"@, suffix) == stem + "_mr"@ + suffix,
        has_siblings(stem + "_n"@),
        has_siblings(stem + "_mg"@),
{
    text_laws::prefixes_are_continued(stem, "_n"@);
    text_laws::prefixes_are_continued(stem, "_mg"@);
    assert((stem + "_n"@).take((stem + "_n"@).len() - "_n"@.len()) =~= stem);
    assert((stem + "_mg"@).take((stem + "_mg"@).len() - "_mg"@.len()) =~= stem);
}

/// Where nothing is there yet, a normal file is split into its normals, which keep all
/// channels, and its mask, which has one; a metallic and gloss file becomes one of metallic
/// and roughness.
pub proof fn sources_get_all_their_siblings(
    files: Vec<SiblingFile>,
    stem: Seq<char>,
    suffix: Seq<char>,
    contents: Seq<u8>,
    w: u32,
    h: u32,
    p: Seq<u8>,
)
    requires
        is_repacked(Ok(files), stem, suffix, contents, Seq::empty()),
        texture::decoded_dds(contents) == Ok::<(u32, u32, Seq<u8>), texture::TextureFault>((w, h, p)),
    ensures
        text::has_suffix(stem, "_n"@) ==> {
            &&& files@.len() == 2
            &&& files@[0].name@ == normal_name(stem, suffix)
            &&& texture::is_compressed(
                w,
                h,
                pixels::with_reconstructed_z(p),
                BlockFormat::Bc7,
                files@[0].contents@,
            )
            &&& files@[1].name@ == mask_name(stem, suffix)
            &&& texture::is_compressed(
                w,
                h,
                pixels::blue_as_red(p),
                BlockFormat::Bc4,
                files@[1].contents@,
            )
        },
        !text::has_suffix(stem, "_n"@) && text::has_suffix(stem, "_mg"@) ==> {
            &&& files@.len() == 1
            &&& files@[0].name@ == mr_name(stem, suffix)
            &&& texture::is_compressed(
                w,
                h,
                pixels::metallic_roughness(p),
                BlockFormat::Bc1,
                files@[0].contents@,
            )
        },
{
}

} // verus!
