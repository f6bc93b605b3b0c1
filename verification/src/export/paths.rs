//! Files of a model in the asset tree.
use vstd::prelude::*;

use crate::models::assets_bin::PathEntry;
use crate::models::assets_bin::PrototypeDatabase;
use crate::order;
use crate::text;
use crate::text_laws;

verus! {

/// A file with the name that it is listed by.
#[derive(Debug)]
pub struct NamedPath {
    pub name: String,
    pub path: String,
}

pub open spec fn path_views(s: Seq<NamedPath>) -> Seq<(Seq<char>, Seq<char>)> {
    Seq::new(s.len(), |i: int| (s[i].name@, s[i].path@))
}

/// Whether a path has the given suffix and lies in a directory of the given name.
pub open spec fn lies_in(entry: PathEntry, suffix: Seq<char>, dir: Seq<char>) -> bool {
    text::has_suffix(entry.name@, suffix) && text::has_part(
        entry.full_path@,
        "/"@ + dir + "/"@,
    )
}

/// Whether a path has the given suffix and its parent directory has the given name.
pub open spec fn is_child_of(entry: PathEntry, suffix: Seq<char>, dir: Seq<char>) -> bool {
    text::has_suffix(entry.name@, suffix) && text::has_suffix(
        entry.full_path@,
        "/"@ + dir + "/"@ + entry.name@,
    )
}

/// Whether a file is listed: by segment if its parent directory is the given one, else if
/// any directory on its path is.
pub open spec fn is_listed(
    entry: PathEntry,
    suffix: Seq<char>,
    dir: Seq<char>,
    by_segment: bool,
) -> bool {
    if by_segment {
        is_child_of(entry, suffix, dir)
    } else {
        lies_in(entry, suffix, dir)
    }
}

/// A file name without its suffix.
pub open spec fn stem_of(name: Seq<char>, suffix: Seq<char>) -> Seq<char> {
    name.take(name.len() - suffix.len())
}

/// A stem without the name of the model and an underscore in front.
pub open spec fn segment_of(stem: Seq<char>, dir: Seq<char>) -> Seq<char> {
    let prefix = dir + "_"@;
    if text::has_prefix(stem, prefix) {
        stem.skip(prefix.len() as int)
    } else {
        stem
    }
}

/// The name that a file is listed by.
pub open spec fn listed_name(
    entry: PathEntry,
    suffix: Seq<char>,
    dir: Seq<char>,
    by_segment: bool,
) -> Seq<char> {
    if by_segment {
        segment_of(stem_of(entry.name@, suffix), dir)
    } else {
        stem_of(entry.name@, suffix)
    }
}

/// The files among the first `n` paths that are listed.
pub open spec fn files_in(
    paths: Seq<PathEntry>,
    suffix: Seq<char>,
    dir: Seq<char>,
    by_segment: bool,
    n: int,
) -> Seq<(Seq<char>, Seq<char>)>
    decreases n,
{
    if n <= 0 {
        Seq::empty()
    } else {
        let before = files_in(paths, suffix, dir, by_segment, n - 1);
        if is_listed(paths[n - 1], suffix, dir, by_segment) {
            before.push(
                (listed_name(paths[n - 1], suffix, dir, by_segment), paths[n - 1].full_path@),
            )
        } else {
            before
        }
    }
}

/// The names of a list of files.
pub open spec fn names_of(files: Seq<(Seq<char>, Seq<char>)>) -> Seq<Seq<char>> {
    Seq::new(files.len(), |i: int| files[i].0)
}

/// A list of files in the order of their names, equal names as they stood.
pub open spec fn in_order(files: Seq<(Seq<char>, Seq<char>)>) -> Seq<(Seq<char>, Seq<char>)> {
    let o = order::stable_order(names_of(files), files.len() as int);
    Seq::new(files.len(), |k: int| files[o[k]])
}

fn list_files(db: &PrototypeDatabase, suffix: &str, dir: &str, by_segment: bool) -> (r: Vec<
    NamedPath,
>)
    ensures
        path_views(r@) == in_order(
            files_in(db.paths@, suffix@, dir@, by_segment, db.paths@.len() as int),
        ),
{
    let needle = text::concat3("/", dir, "/");
    let prefix = text::concat(dir, "_");
    let mut names: Vec<String> = Vec::new();
    let mut indices: Vec<usize> = Vec::new();
    let mut i: usize = 0;
    while i < db.paths.len()
        invariant
            i <= db.paths.len(),
            needle@ == "/"@ + dir@ + "/"@,
            prefix@ == dir@ + "_"@,
            names@.len() == indices@.len(),
            forall|k: int| 0 <= k < indices@.len() ==> (#[trigger] indices@[k]) < db.paths@.len(),
            files_in(db.paths@, suffix@, dir@, by_segment, i as int).len() == names@.len(),
            forall|k: int|
                0 <= k < names@.len() ==> #[trigger] files_in(
                    db.paths@,
                    suffix@,
                    dir@,
                    by_segment,
                    i as int,
                )[k] == (names@[k]@, db.paths@[indices@[k] as int].full_path@),
        decreases db.paths.len() - i,
    {
        let ghost before = files_in(db.paths@, suffix@, dir@, by_segment, i as int);
        let ghost old_names = names@;
        let ghost old_indices = indices@;
        if let Some(stem) = text::strip_suffix(db.paths[i].name.as_str(), suffix) {
            let full_path = db.paths[i].full_path.as_str();
            let is_found = if by_segment {
                let ending = text::concat(needle.as_str(), db.paths[i].name.as_str());
                text::ends_with(full_path, ending.as_str())
            } else {
                text::contains(full_path, needle.as_str())
            };
            if is_found {
                let name = if by_segment {
                    match text::strip_prefix(stem.as_str(), prefix.as_str()) {
                        Some(t) => t,
                        None => stem,
                    }
                } else {
                    stem
                };
                names.push(name);
                indices.push(i);
            }
        }
        proof {
            let now = files_in(db.paths@, suffix@, dir@, by_segment, i + 1);
            assert forall|k: int| 0 <= k < names@.len() implies #[trigger] now[k] == (
                names@[k]@,
                db.paths@[indices@[k] as int].full_path@,
            ) by {
                if k < before.len() {
                    assert(now[k] == before[k]);
                    assert(names@[k] == old_names[k]);
                    assert(indices@[k] == old_indices[k]);
                }
            }
        }
        i += 1;
    }
    let ghost files = files_in(db.paths@, suffix@, dir@, by_segment, db.paths@.len() as int);
    assert(text::texts(names@) =~= names_of(files));
    let sorted = order::sort_stably(&names);
    let ghost o = order::stable_order(names_of(files), files.len() as int);
    let mut out: Vec<NamedPath> = Vec::new();
    let mut k: usize = 0;
    while k < sorted.len()
        invariant
            k <= sorted.len(),
            out@.len() == k,
            sorted@.len() == names@.len(),
            names@.len() == indices@.len(),
            files.len() == names@.len(),
            o == sorted@.map_values(|i: usize| i as int),
            forall|k: int| 0 <= k < sorted@.len() ==> (#[trigger] sorted@[k]) < names@.len(),
            forall|k: int| 0 <= k < indices@.len() ==> (#[trigger] indices@[k]) < db.paths@.len(),
            forall|k: int|
                0 <= k < names@.len() ==> #[trigger] files[k] == (
                    names@[k]@,
                    db.paths@[indices@[k] as int].full_path@,
                ),
            forall|j: int|
                0 <= j < k ==> ((#[trigger] out@[j]).name@, out@[j].path@) == files[o[j]],
        decreases sorted.len() - k,
    {
        let at: usize = sorted[k];
        assert(o[k as int] == at);
        out.push(
            NamedPath {
                name: text::copy(names[at].as_str()),
                path: text::copy(db.paths[indices[at]].full_path.as_str()),
            },
        );
        assert(files[at as int] == (names@[at as int]@, db.paths@[indices@[at as int] as int].full_path@));
        k += 1;
    }
    assert(path_views(out@) =~= in_order(files));
    out
}

/// Finds the `.visual` files with the directory of a model on their path, by name.
pub fn find_visual_paths(db: &PrototypeDatabase, model_dir: &str) -> (r: Vec<NamedPath>)
    ensures
        path_views(r@) == in_order(
            files_in(db.paths@, ".visual"@, model_dir@, false, db.paths@.len() as int),
        ),
{
    list_files(db, ".visual", model_dir, false)
}

/// Finds the `.skel_ext` files whose parent directory is that of a model, by segment: what
/// their names add to that of the model.
pub fn find_skel_ext_paths(db: &PrototypeDatabase, model_dir: &str) -> (r: Vec<NamedPath>)
    ensures
        path_views(r@) == in_order(
            files_in(db.paths@, ".skel_ext"@, model_dir@, true, db.paths@.len() as int),
        ),
{
    list_files(db, ".skel_ext", model_dir, true)
}

/// Listed files stand in the order of their names, and every file that was found is
/// listed.
pub proof fn listed_files_are_sorted_and_complete(files: Seq<(Seq<char>, Seq<char>)>)
    ensures
        in_order(files).len() == files.len(),
        forall|a: int, b: int|
            0 <= a < b < files.len() ==> !text::comes_before(
                (#[trigger] in_order(files)[b]).0,
                (#[trigger] in_order(files)[a]).0,
            ),
        forall|i: int| 0 <= i < files.len() ==> in_order(files).contains(#[trigger] files[i]),
{
    let names = names_of(files);
    let o = order::stable_order(names, files.len() as int);
    order::stable_order_is_exact(names, files.len() as int);
    let sorted = in_order(files);
    assert forall|a: int, b: int| 0 <= a < b < files.len() implies !text::comes_before(
        (#[trigger] sorted[b]).0,
        (#[trigger] sorted[a]).0,
    ) by {
        assert(order::precedes(names, o[a], o[b]));
        assert(names[o[a]] == sorted[a].0 && names[o[b]] == sorted[b].0);
        if text::comes_before(sorted[b].0, sorted[a].0) {
            if text::comes_before(sorted[a].0, sorted[b].0) {
                text::order_is_transitive(sorted[a].0, sorted[b].0, sorted[a].0);
            }
            text::order_is_irreflexive(sorted[a].0);
        }
    }
    assert forall|i: int| 0 <= i < files.len() implies sorted.contains(#[trigger] files[i]) by {
        assert(o.contains(i));
        let k = choose|k: int| 0 <= k < o.len() && o[k] == i;
        assert(sorted[k] == files[i]);
    }
}

// ---- Paths of one model -----------------------------------------------------

/// The path of the splash file next to a geometry file.
pub open spec fn splash_path_of(geometry: Seq<char>) -> Option<Seq<char>> {
    if text::has_suffix(geometry, ".geometry"@) {
        Some(stem_of(geometry, ".geometry"@) + ".splash"@)
    } else {
        None
    }
}

/// The splash file next to a geometry file.
pub fn splash_path(geometry: &str) -> (r: Option<String>)
    ensures
        text::opt_text(r) == splash_path_of(geometry@),
{
    match text::strip_suffix(geometry, ".geometry") {
        Some(stem) => Some(text::concat(stem.as_str(), ".splash")),
        None => None,
    }
}

/// The name of the visual of a component model.
pub fn turret_visual_name(model_path: &str) -> (r: String)
    ensures
        r@ == text::after_last(text::replaced(model_path@, ".model"@, ".visual"@), '/'),
{
    proof {
        reveal_strlit(".model");
    }
    text::tail_after(text::replace(model_path, ".model", ".visual").as_str(), '/')
}

/// The short name of a component model: its file name without `.model`, or the whole
/// path if it is no such file.
pub open spec fn short_name(model_path: Seq<char>) -> Seq<char> {
    let leaf = text::after_last(model_path, '/');
    if text::has_suffix(leaf, ".model"@) {
        stem_of(leaf, ".model"@)
    } else {
        model_path
    }
}

/// The short name of a component model.
pub fn model_short_name(model_path: &str) -> (r: String)
    ensures
        r@ == short_name(model_path@),
{
    let leaf = text::tail_after(model_path, '/');
    match text::strip_suffix(leaf.as_str(), ".model") {
        Some(stem) => stem,
        None => text::copy(model_path),
    }
}

/// Whether an entry is listed as a file.
pub open spec fn lists(
    entry: PathEntry,
    suffix: Seq<char>,
    dir: Seq<char>,
    by_segment: bool,
    file: (Seq<char>, Seq<char>),
) -> bool {
    is_listed(entry, suffix, dir, by_segment) && file.0 == listed_name(
        entry,
        suffix,
        dir,
        by_segment,
    ) && file.1 == entry.full_path@
}

/// The files of a listing are exactly those entries that are listed, each with its path
/// and the name that it is listed under.
#[verifier::rlimit(50)]
pub proof fn listings_hold_what_is_listed(
    paths: Seq<PathEntry>,
    suffix: Seq<char>,
    dir: Seq<char>,
    by_segment: bool,
    n: int,
    file: (Seq<char>, Seq<char>),
)
    requires
        0 <= n <= paths.len(),
    ensures
        files_in(paths, suffix, dir, by_segment, n).contains(file) <==> exists|i: int|
            0 <= i < n && lists(#[trigger] paths[i], suffix, dir, by_segment, file),
    decreases n,
{
    let now = files_in(paths, suffix, dir, by_segment, n);
    if n > 0 {
        listings_hold_what_is_listed(paths, suffix, dir, by_segment, n - 1, file);
        let before = files_in(paths, suffix, dir, by_segment, n - 1);
        if now.contains(file) {
            let k = choose|k: int| 0 <= k < now.len() && now[k] == file;
            if k < before.len() {
                assert(before[k] == file);
                assert(before.contains(file));
            } else {
                assert(lists(paths[n - 1], suffix, dir, by_segment, file));
            }
        }
        if exists|i: int|
            0 <= i < n && lists(#[trigger] paths[i], suffix, dir, by_segment, file) {
            let i = choose|i: int|
                0 <= i < n && lists(#[trigger] paths[i], suffix, dir, by_segment, file);
            if i < n - 1 {
                assert(before.contains(file));
                let k = choose|k: int| 0 <= k < before.len() && before[k] == file;
                assert(now[k] == file);
            } else {
                assert(now[before.len() as int] == file);
            }
        }
    }
}

/// A file is listed under its name without the ending and, by segment, without the name of
/// its directory; a splash file stands beside the geometry of the same name; a model is
/// known by the name of its file.
pub proof fn names_are_those_of_the_files(dir: Seq<char>, name: Seq<char>, head: Seq<char>)
    requires
        !name.contains('/'),
    ensures
        stem_of(name + ".visual"@, ".visual"@) == name,
        segment_of(dir + "_"@ + name, dir) == name,
        splash_path_of(head + ".geometry"@) == Some(head + ".splash"@),
        short_name(head + "/"@ + name + ".model"@) == name,
{
    reveal_strlit("/");
    reveal_strlit("_");
    reveal_strlit(".model");
    assert(stem_of(name + ".visual"@, ".visual"@) =~= name);
    let prefix = dir + "_"@;
    text_laws::prefixes_are_continued(name, prefix);
    assert((prefix + name).skip(prefix.len() as int) =~= name);
    text_laws::prefixes_are_continued(head, ".geometry"@);
    assert(stem_of(head + ".geometry"@, ".geometry"@) =~= head);
    let leaf = name + ".model"@;
    assert(!leaf.contains('/')) by {
        if leaf.contains('/') {
            let i = choose|i: int| 0 <= i < leaf.len() && leaf[i] == '/';
            if i < name.len() {
                assert(name[i] == '/');
            } else {
                assert(".model"@[i - name.len()] == '/');
            }
        }
    }
    assert(head + "/"@ + name + ".model"@ =~= head.push('/') + leaf);
    text_laws::texts_split_at_the_last_character(head, leaf, '/');
    text_laws::prefixes_are_continued(name, ".model"@);
    assert(stem_of(leaf, ".model"@) =~= name);
}

} // verus!
