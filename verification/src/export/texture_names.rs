//! Texture file names: which files may hold the texture of a material.
use vstd::prelude::*;

use crate::text;
use crate::text_laws;

verus! {

/// Directory of the camouflage textures.
pub const TEXTURE_BASE: &'static str = "content/gameplay/common/camouflage/textures";

/// Suffixes of the mip level files of a texture, from the largest level down.
pub const DDS_MIP_SUFFIXES: [&'static str; 4] = [".dd0", ".dd1", ".dd2", ".dds"];

/// Suffixes of the channels of a scheme.
pub const TEXTURE_CHANNEL_SUFFIXES: [&'static str; 3] = ["_a", "_mg", "_mgn"];

// ---- Years ------------------------------------------------------------------

pub open spec fn is_digit(c: char) -> bool {
    '0' <= c <= '9'
}

/// Whether a year stands at `i`: an underscore and four digits, followed by another
/// underscore or the end.
pub open spec fn year_at(s: Seq<char>, i: int) -> bool {
    &&& 0 <= i
    &&& i + 5 <= s.len()
    &&& s[i] == '_'
    &&& is_digit(s[i + 1])
    &&& is_digit(s[i + 2])
    &&& is_digit(s[i + 3])
    &&& is_digit(s[i + 4])
    &&& i + 5 == s.len() || s[i + 5] == '_'
}

/// Whether the first year of a text stands at `i`.
pub open spec fn first_year_at(s: Seq<char>, i: int) -> bool {
    year_at(s, i) && forall|j: int| 0 <= j < i ==> !#[trigger] year_at(s, j)
}

pub open spec fn has_year(s: Seq<char>) -> bool {
    exists|i: int| #[trigger] year_at(s, i)
}

/// Where the first year of a text stands.
pub open spec fn year_position(s: Seq<char>) -> int {
    choose|i: int| first_year_at(s, i)
}

/// A text without its first year.
pub open spec fn without_year(s: Seq<char>) -> Option<Seq<char>> {
    if has_year(s) {
        Some(s.take(year_position(s)) + s.skip(year_position(s) + 5))
    } else {
        None
    }
}

/// A text up to its first year.
pub open spec fn up_to_year(s: Seq<char>) -> Option<Seq<char>> {
    if has_year(s) {
        Some(s.take(year_position(s)))
    } else {
        None
    }
}

fn digit(c: char) -> (r: bool)
    ensures
        r == is_digit(c),
{
    '0' <= c && c <= '9'
}

/// Position of the first year.
fn find_year(s: &Vec<char>) -> (r: Option<usize>)
    ensures
        match r {
            Some(i) => has_year(s@) && i == year_position(s@) && year_at(s@, i as int) && i + 5
                <= s.len(),
            None => !has_year(s@),
        },
{
    let n: usize = s.len();
    let mut i: usize = 0;
    while n >= 5 && i <= n - 5
        invariant
            n == s@.len(),
            i <= n,
            forall|j: int| 0 <= j < i ==> !#[trigger] year_at(s@, j),
        decreases n - i,
    {
        if s[i] == '_' && digit(s[i + 1]) && digit(s[i + 2]) && digit(s[i + 3]) && digit(s[i + 4])
            && (i + 5 == n || s[i + 5] == '_') {
            proof {
                assert(first_year_at(s@, i as int));
                let p = year_position(s@);
                assert(first_year_at(s@, p));
                if p < i {
                    assert(!year_at(s@, p));
                }
                if i < p {
                    assert(!year_at(s@, i as int));
                }
            }
            return Some(i);
        }
        i += 1;
    }
    None
}

/// Removes the first year of a stem.
pub fn strip_year_token(stem: &str) -> (r: Option<String>)
    ensures
        text::opt_text(r) == without_year(stem@),
{
    let s = text::chars_of(stem);
    match find_year(&s) {
        Some(i) => {
            let mut out = text::slice_text(&s, 0, i);
            out.append(text::slice_text(&s, i + 5, s.len()).as_str());
            assert(out@ =~= s@.take(i as int) + s@.skip(i + 5));
            Some(out)
        },
        None => None,
    }
}

/// Cuts a stem off at its first year.
pub fn truncate_at_year_token(stem: &str) -> (r: Option<String>)
    ensures
        text::opt_text(r) == up_to_year(stem@),
{
    let s = text::chars_of(stem);
    match find_year(&s) {
        Some(i) => {
            let out = text::slice_text(&s, 0, i);
            assert(out@ =~= s@.take(i as int));
            Some(out)
        },
        None => None,
    }
}

/// The year position of a text that has a year really is one.
proof fn year_position_is_a_year(s: Seq<char>)
    requires
        has_year(s),
    ensures
        first_year_at(s, year_position(s)),
{
    let i = choose|i: int| #[trigger] year_at(s, i);
    first_year_exists(s, i);
}

proof fn first_year_exists(s: Seq<char>, i: int)
    requires
        year_at(s, i),
    ensures
        exists|k: int| first_year_at(s, k),
    decreases i,
{
    if exists|j: int| 0 <= j < i && #[trigger] year_at(s, j) {
        let j = choose|j: int| 0 <= j < i && #[trigger] year_at(s, j);
        first_year_exists(s, j);
    } else {
        assert(first_year_at(s, i));
    }
}

/// What remains before the year starts the stem, and also starts the stem without
/// the year, which is five characters shorter than the stem.
pub proof fn year_variants_agree(s: Seq<char>)
    requires
        has_year(s),
    ensures
        up_to_year(s)->0.is_prefix_of(s),
        up_to_year(s)->0.is_prefix_of(without_year(s)->0),
        without_year(s)->0.len() == s.len() - 5,
{
    year_position_is_a_year(s);
}

// ---- Base names -------------------------------------------------------------

/// A list of names with one more at its end, unless it has it already.
pub open spec fn with_name(names: Seq<Seq<char>>, name: Seq<char>) -> Seq<Seq<char>> {
    if names.contains(name) {
        names
    } else {
        names.push(name)
    }
}

/// A list of names with the stem without a suffix, if it has that suffix.
pub open spec fn with_stripped(names: Seq<Seq<char>>, stem: Seq<char>, suffix: Seq<char>) -> Seq<
    Seq<char>,
> {
    if text::has_suffix(stem, suffix) {
        with_name(names, stem.take(stem.len() - suffix.len()))
    } else {
        names
    }
}

/// A list of names with one that is there and not empty.
pub open spec fn with_found(names: Seq<Seq<char>>, name: Option<Seq<char>>) -> Seq<Seq<char>> {
    match name {
        Some(n) => if n.len() > 0 {
            with_name(names, n)
        } else {
            names
        },
        None => names,
    }
}

/// The names that the textures of a material may start with, in the order in which
/// they are tried: the stem, the stem without a material suffix, the stem without
/// its year, the stem up to its year.
pub open spec fn base_names(stem: Seq<char>) -> Seq<Seq<char>> {
    let n0 = seq![stem];
    let n1 = with_stripped(n0, stem, "_skinned"@);
    let n2 = with_stripped(n1, stem, "_wire"@);
    let n3 = with_stripped(n2, stem, "_dead"@);
    let n4 = with_stripped(n3, stem, "_blaze"@);
    let n5 = with_stripped(n4, stem, "_alpha"@);
    with_found(with_found(n5, without_year(stem)), up_to_year(stem))
}

fn add_name(names: &mut Vec<String>, name: String)
    ensures
        text::texts(final(names)@) == with_name(text::texts(old(names)@), name@),
{
    if !text::contains_text(names, name.as_str()) {
        let ghost before = text::texts(names@);
        names.push(name);
        assert(text::texts(names@) =~= before.push(name@));
    }
}

fn add_stripped(names: &mut Vec<String>, stem: &str, suffix: &str)
    ensures
        text::texts(final(names)@) == with_stripped(text::texts(old(names)@), stem@, suffix@),
{
    if let Some(stripped) = text::strip_suffix(stem, suffix) {
        add_name(names, stripped);
    }
}

fn add_found(names: &mut Vec<String>, name: Option<String>)
    ensures
        text::texts(final(names)@) == with_found(
            text::texts(old(names)@),
            text::opt_text(name),
        ),
{
    if let Some(n) = name {
        if !n.as_str().is_empty() {
            add_name(names, n);
        }
    }
}

/// The names that the textures of a material may start with.
pub fn texture_base_names(mfm_stem: &str) -> (r: Vec<String>)
    ensures
        text::texts(r@) == base_names(mfm_stem@),
{
    let mut names: Vec<String> = Vec::new();
    names.push(text::copy(mfm_stem));
    assert(text::texts(names@) =~= seq![mfm_stem@]);
    add_stripped(&mut names, mfm_stem, "_skinned");
    add_stripped(&mut names, mfm_stem, "_wire");
    add_stripped(&mut names, mfm_stem, "_dead");
    add_stripped(&mut names, mfm_stem, "_blaze");
    add_stripped(&mut names, mfm_stem, "_alpha");
    add_found(&mut names, strip_year_token(mfm_stem));
    add_found(&mut names, truncate_at_year_token(mfm_stem));
    names
}

proof fn with_name_keeps_names_distinct(names: Seq<Seq<char>>, name: Seq<char>)
    requires
        names.no_duplicates(),
        names.len() > 0,
    ensures
        with_name(names, name).no_duplicates(),
        with_name(names, name).len() > 0,
        with_name(names, name)[0] == names[0],
{
    if !names.contains(name) {
        let all = names.push(name);
        assert forall|i: int, j: int| 0 <= i < all.len() && 0 <= j < all.len() && i
            != j implies all[i] != all[j] by {
            if i < names.len() && j < names.len() {
                assert(names[i] != names[j]);
            } else if i < names.len() {
                assert(names.contains(names[i]));
            } else if j < names.len() {
                assert(names.contains(names[j]));
            }
        }
    }
}

proof fn with_stripped_keeps_names_distinct(
    names: Seq<Seq<char>>,
    stem: Seq<char>,
    suffix: Seq<char>,
)
    requires
        names.no_duplicates(),
        names.len() > 0,
    ensures
        with_stripped(names, stem, suffix).no_duplicates(),
        with_stripped(names, stem, suffix).len() > 0,
        with_stripped(names, stem, suffix)[0] == names[0],
{
    if text::has_suffix(stem, suffix) {
        with_name_keeps_names_distinct(names, stem.take(stem.len() - suffix.len()));
    }
}

/// The stem itself is the first name that is tried, and no name is tried twice.
pub proof fn base_names_start_with_the_stem_and_are_distinct(stem: Seq<char>)
    ensures
        base_names(stem).len() > 0,
        base_names(stem)[0] == stem,
        base_names(stem).no_duplicates(),
{
    let n0 = seq![stem];
    with_stripped_keeps_names_distinct(n0, stem, "_skinned"@);
    let n1 = with_stripped(n0, stem, "_skinned"@);
    with_stripped_keeps_names_distinct(n1, stem, "_wire"@);
    let n2 = with_stripped(n1, stem, "_wire"@);
    with_stripped_keeps_names_distinct(n2, stem, "_dead"@);
    let n3 = with_stripped(n2, stem, "_dead"@);
    with_stripped_keeps_names_distinct(n3, stem, "_blaze"@);
    let n4 = with_stripped(n3, stem, "_blaze"@);
    with_stripped_keeps_names_distinct(n4, stem, "_alpha"@);
    let n5 = with_stripped(n4, stem, "_alpha"@);
    if has_year(stem) {
        with_name_keeps_names_distinct(n5, without_year(stem)->0);
        let n6 = with_found(n5, without_year(stem));
        with_name_keeps_names_distinct(n6, up_to_year(stem)->0);
    }
}

// ---- Candidate paths --------------------------------------------------------

/// The paths under which the camouflage texture of a base name and scheme is looked
/// for, in this order: the albedo channel, then the scheme's only file, the largest
/// mip level first.
pub open spec fn camo_paths(base: Seq<char>, scheme: Seq<char>) -> Seq<Seq<char>> {
    let stem = TEXTURE_BASE@ + "/"@ + base + "_"@ + scheme;
    seq![stem + "_a.dd0"@, stem + "_a.dds"@, stem + ".dd0"@, stem + ".dds"@]
}

/// Base name and path of everything that is tried for the first `n` base names.
pub open spec fn camo_candidates_of(bases: Seq<Seq<char>>, scheme: Seq<char>, n: int) -> Seq<
    (Seq<char>, Seq<char>),
>
    decreases n,
{
    if n <= 0 {
        Seq::empty()
    } else {
        camo_candidates_of(bases, scheme, n - 1) + Seq::new(
            4,
            |i: int| (bases[n - 1], camo_paths(bases[n - 1], scheme)[i]),
        )
    }
}

/// A texture file to try.
#[derive(Debug)]
pub struct TextureCandidate {
    pub base_name: String,
    pub path: String,
}

pub open spec fn candidate_views(s: Seq<TextureCandidate>) -> Seq<(Seq<char>, Seq<char>)> {
    Seq::new(s.len(), |i: int| (s[i].base_name@, s[i].path@))
}

fn push_candidate(out: &mut Vec<TextureCandidate>, base: &str, stem: &str, suffix: &str)
    ensures
        candidate_views(final(out)@) == candidate_views(old(out)@).push((base@, stem@ + suffix@)),
{
    let ghost before = candidate_views(out@);
    out.push(TextureCandidate { base_name: text::copy(base), path: text::concat(stem, suffix) });
    assert(candidate_views(out@) =~= before.push((base@, stem@ + suffix@)));
}

/// The files to try for the camouflage texture of a material, in order.
pub fn camo_texture_candidates(mfm_stem: &str, scheme: &str) -> (r: Vec<TextureCandidate>)
    ensures
        candidate_views(r@) == camo_candidates_of(
            base_names(mfm_stem@),
            scheme@,
            base_names(mfm_stem@).len() as int,
        ),
{
    let bases = texture_base_names(mfm_stem);
    let ghost names = text::texts(bases@);
    let mut out: Vec<TextureCandidate> = Vec::new();
    let mut k: usize = 0;
    assert(candidate_views(out@) =~= Seq::empty());
    while k < bases.len()
        invariant
            k <= bases.len(),
            names == text::texts(bases@),
            candidate_views(out@) == camo_candidates_of(names, scheme@, k as int),
        decreases bases.len() - k,
    {
        let base = bases[k].as_str();
        assert(base@ == names[k as int]);
        let mut stem = text::concat3(TEXTURE_BASE, "/", base);
        stem.append("_");
        stem.append(scheme);
        let ghost before = candidate_views(out@);
        push_candidate(&mut out, base, stem.as_str(), "_a.dd0");
        push_candidate(&mut out, base, stem.as_str(), "_a.dds");
        push_candidate(&mut out, base, stem.as_str(), ".dd0");
        push_candidate(&mut out, base, stem.as_str(), ".dds");
        assert(candidate_views(out@) =~= before + Seq::new(
            4,
            |i: int| (names[k as int], camo_paths(names[k as int], scheme@)[i]),
        ));
        k += 1;
    }
    out
}

/// Directory, parent directory (if any) and stem of a material file.
pub open spec fn mfm_parts(path: Seq<char>) -> Option<(Seq<char>, Option<Seq<char>>, Seq<char>)> {
    match text::split_last(path, '/') {
        None => None,
        Some((dir, file)) => if text::has_suffix(file, ".mfm"@) {
            Some(
                (
                    dir,
                    match text::split_last(dir, '/') {
                        Some((parent, _)) => Some(parent),
                        None => None,
                    },
                    file.take(file.len() - 4),
                ),
            )
        } else {
            None
        },
    }
}

/// Both mip level files of a texture, the larger first.
pub open spec fn two_mips(stem: Seq<char>) -> Seq<Seq<char>> {
    seq![stem + ".dd0"@, stem + ".dds"@]
}

/// The files to try for one base name and albedo suffix: in the `textures` directory
/// beside the material's, in the material's directory, in its `TILED` directory.
pub open spec fn albedo_paths(
    dir: Seq<char>,
    parent: Option<Seq<char>>,
    base: Seq<char>,
    suffix: Seq<char>,
) -> Seq<Seq<char>> {
    let sibling = match parent {
        Some(p) => two_mips(p + "/textures/"@ + base + suffix),
        None => Seq::empty(),
    };
    sibling + two_mips(dir + "/"@ + base + suffix) + two_mips(dir + "/TILED/"@ + base + suffix)
}

/// Everything to try for the first `n` base names.
pub open spec fn albedo_candidates_of(
    dir: Seq<char>,
    parent: Option<Seq<char>>,
    bases: Seq<Seq<char>>,
    n: int,
) -> Seq<Seq<char>>
    decreases n,
{
    if n <= 0 {
        Seq::empty()
    } else {
        albedo_candidates_of(dir, parent, bases, n - 1) + albedo_paths(
            dir,
            parent,
            bases[n - 1],
            "_a"@,
        ) + albedo_paths(dir, parent, bases[n - 1], "_od"@)
    }
}

/// The files to try for the albedo texture of a material, in order. A path that does
/// not name a material file in a directory has none.
pub open spec fn albedo_candidates(path: Seq<char>) -> Seq<Seq<char>> {
    match mfm_parts(path) {
        None => Seq::empty(),
        Some((dir, parent, stem)) => albedo_candidates_of(
            dir,
            parent,
            base_names(stem),
            base_names(stem).len() as int,
        ),
    }
}

fn push_two_mips(out: &mut Vec<String>, dir: &str, infix: &str, base: &str, suffix: &str)
    ensures
        text::texts(final(out)@) == text::texts(old(out)@) + two_mips(
            dir@ + infix@ + base@ + suffix@,
        ),
{
    let ghost before = text::texts(out@);
    let mut stem = text::concat3(dir, infix, base);
    stem.append(suffix);
    out.push(text::concat(stem.as_str(), ".dd0"));
    out.push(text::concat(stem.as_str(), ".dds"));
    assert(text::texts(out@) =~= before + two_mips(stem@));
}

fn push_albedo_paths(
    out: &mut Vec<String>,
    dir: &str,
    parent: &Option<String>,
    base: &str,
    suffix: &str,
)
    ensures
        text::texts(final(out)@) == text::texts(old(out)@) + albedo_paths(
            dir@,
            text::opt_text(*parent),
            base@,
            suffix@,
        ),
{
    let ghost before = text::texts(out@);
    if let Some(p) = parent {
        push_two_mips(out, p.as_str(), "/textures/", base, suffix);
    }
    push_two_mips(out, dir, "/", base, suffix);
    push_two_mips(out, dir, "/TILED/", base, suffix);
    assert(text::texts(out@) =~= before + albedo_paths(
        dir@,
        text::opt_text(*parent),
        base@,
        suffix@,
    ));
}

/// The files to try for the albedo texture of a material, in order.
pub fn base_albedo_candidates(mfm_full_path: &str) -> (r: Vec<String>)
    ensures
        text::texts(r@) == albedo_candidates(mfm_full_path@),
{
    let mut out: Vec<String> = Vec::new();
    assert(text::texts(out@) =~= Seq::empty());
    let (dir, file) = match text::rsplit_once(mfm_full_path, '/') {
        Some(parts) => parts,
        None => {
            return out;
        },
    };
    let stem = match text::strip_suffix(file.as_str(), ".mfm") {
        Some(stem) => stem,
        None => {
            return out;
        },
    };
    let parent: Option<String> = match text::rsplit_once(dir.as_str(), '/') {
        Some((parent, _)) => Some(parent),
        None => None,
    };
    proof {
        reveal_strlit(".mfm");
        assert(mfm_parts(mfm_full_path@) == Some((dir@, text::opt_text(parent), stem@)));
    }
    let bases = texture_base_names(stem.as_str());
    let ghost names = text::texts(bases@);
    let mut k: usize = 0;
    while k < bases.len()
        invariant
            k <= bases.len(),
            names == text::texts(bases@),
            text::texts(out@) == albedo_candidates_of(
                dir@,
                text::opt_text(parent),
                names,
                k as int,
            ),
        decreases bases.len() - k,
    {
        let base = bases[k].as_str();
        assert(base@ == names[k as int]);
        push_albedo_paths(&mut out, dir.as_str(), &parent, base, "_a");
        push_albedo_paths(&mut out, dir.as_str(), &parent, base, "_od");
        k += 1;
    }
    out
}

/// The files to try for a texture of known path: its largest mip level if the path
/// names the smallest, then the path itself.
pub open spec fn hashed_candidates(path: Seq<char>) -> Seq<Seq<char>> {
    if text::has_suffix(path, ".dds"@) {
        seq![text::replaced(path, ".dds"@, ".dd0"@), path]
    } else {
        seq![path]
    }
}

/// The files to try for a texture of known path, in order.
pub fn texture_path_candidates(full_path: &str) -> (r: Vec<String>)
    ensures
        text::texts(r@) == hashed_candidates(full_path@),
{
    let mut out: Vec<String> = Vec::new();
    if text::ends_with(full_path, ".dds") {
        proof {
            reveal_strlit(".dds");
        }
        out.push(text::replace(full_path, ".dds", ".dd0"));
    }
    out.push(text::copy(full_path));
    assert(text::texts(out@) =~= hashed_candidates(full_path@));
    out
}

// ---- Schemes ----------------------------------------------------------------

/// A raw scheme name without the first channel suffix that fits and leaves
/// something.
pub open spec fn scheme_name(raw: Seq<char>) -> Seq<char> {
    if text::has_suffix(raw, "_a"@) && raw.len() > "_a"@.len() {
        raw.take(raw.len() - "_a"@.len())
    } else if text::has_suffix(raw, "_mg"@) && raw.len() > "_mg"@.len() {
        raw.take(raw.len() - "_mg"@.len())
    } else if text::has_suffix(raw, "_mgn"@) && raw.len() > "_mgn"@.len() {
        raw.take(raw.len() - "_mgn"@.len())
    } else {
        raw
    }
}

/// A text without a suffix, if it has it and more.
fn strip_nonempty(s: &str, suffix: &str) -> (r: Option<String>)
    ensures
        r is Some <==> text::has_suffix(s@, suffix@) && s@.len() > suffix@.len(),
        r matches Some(t) ==> t@ == s@.take(s@.len() - suffix@.len()),
{
    match text::strip_suffix(s, suffix) {
        Some(t) => if t.as_str().is_empty() {
            None
        } else {
            Some(t)
        },
        None => None,
    }
}

/// Removes the channel suffix of a scheme.
pub fn strip_channel_suffix(scheme: &str) -> (r: String)
    ensures
        r@ == scheme_name(scheme@),
{
    if let Some(t) = strip_nonempty(scheme, "_a") {
        return t;
    }
    if let Some(t) = strip_nonempty(scheme, "_mg") {
        return t;
    }
    if let Some(t) = strip_nonempty(scheme, "_mgn") {
        return t;
    }
    text::copy(scheme)
}

/// The raw scheme in a file name, if the file belongs to a base name: what stands
/// between `base_` and `.dds`.
pub open spec fn raw_scheme(file: Seq<char>, base: Seq<char>) -> Option<Seq<char>> {
    let prefix = base + "_"@;
    let rest = file.skip(prefix.len() as int);
    if text::has_prefix(file, prefix) && text::has_suffix(rest, ".dds"@) && rest.len()
        > ".dds"@.len() {
        Some(rest.take(rest.len() - ".dds"@.len()))
    } else {
        None
    }
}

/// The scheme that a file shows for a base name.
pub open spec fn scheme_shown(file: Seq<char>, base: Seq<char>) -> Option<Seq<char>> {
    match raw_scheme(file, base) {
        Some(raw) => Some(scheme_name(raw)),
        None => None,
    }
}

fn find_scheme(file: &str, base: &str) -> (r: Option<String>)
    ensures
        text::opt_text(r) == scheme_shown(file@, base@),
{
    let prefix = text::concat(base, "_");
    match text::strip_prefix(file, prefix.as_str()) {
        None => None,
        Some(rest) => match strip_nonempty(rest.as_str(), ".dds") {
            None => None,
            Some(raw) => Some(strip_channel_suffix(raw.as_str())),
        },
    }
}

/// Whether one of some files shows scheme `s` for a base name.
pub open spec fn base_shows(files: Seq<Seq<char>>, base: Seq<char>, s: Seq<char>) -> bool {
    exists|k: int| 0 <= k < files.len() && #[trigger] scheme_shown(files[k], base) == Some(s)
}

/// Adds the schemes that the files show for one base name.
fn add_base_schemes(out: &mut Vec<String>, files: &Vec<String>, base: &str)
    requires
        text::is_ascending(text::texts(old(out)@)),
    ensures
        text::is_ascending(text::texts(final(out)@)),
        forall|s: Seq<char>| #[trigger]
            text::texts(final(out)@).contains(s) <==> text::texts(old(out)@).contains(s)
                || base_shows(text::texts(files@), base@, s),
{
    let ghost names = text::texts(files@);
    let ghost before = text::texts(out@);
    let mut k: usize = 0;
    while k < files.len()
        invariant
            k <= files.len(),
            names == text::texts(files@),
            text::is_ascending(text::texts(out@)),
            forall|s: Seq<char>| #[trigger]
                text::texts(out@).contains(s) <==> before.contains(s) || exists|m: int|
                    0 <= m < k && #[trigger] scheme_shown(names[m], base@) == Some(s),
        decreases files.len() - k,
    {
        let ghost mid = text::texts(out@);
        assert(names[k as int] == files@[k as int]@);
        let found = find_scheme(files[k].as_str(), base);
        let ghost shown = text::opt_text(found);
        if let Some(scheme) = found {
            text::insert_ascending(out, scheme);
        }
        assert forall|s: Seq<char>| #[trigger] text::texts(out@).contains(s) <==> before.contains(s)
            || exists|m: int|
            0 <= m < k + 1 && #[trigger] scheme_shown(names[m], base@) == Some(s) by {
            if mid.contains(s) && !before.contains(s) {
                let m = choose|m: int|
                    0 <= m < k && #[trigger] scheme_shown(names[m], base@) == Some(s);
                assert(scheme_shown(names[m], base@) == Some(s));
            }
            if shown == Some(s) {
                assert(scheme_shown(names[k as int], base@) == Some(s));
            }
        }
        k += 1;
    }
}

/// Whether one of some files shows scheme `s` for one of some base names.
pub open spec fn bases_show(
    files: Seq<Seq<char>>,
    bases: Seq<Seq<char>>,
    s: Seq<char>,
) -> bool {
    exists|j: int| 0 <= j < bases.len() && #[trigger] base_shows(files, bases[j], s)
}

/// Adds the schemes that the files show for one stem.
fn add_stem_schemes(out: &mut Vec<String>, files: &Vec<String>, stem: &str)
    requires
        text::is_ascending(text::texts(old(out)@)),
    ensures
        text::is_ascending(text::texts(final(out)@)),
        forall|s: Seq<char>| #[trigger]
            text::texts(final(out)@).contains(s) <==> text::texts(old(out)@).contains(s)
                || bases_show(text::texts(files@), base_names(stem@), s),
{
    let ghost names = text::texts(files@);
    let ghost before = text::texts(out@);
    let bases = texture_base_names(stem);
    let ghost all = text::texts(bases@);
    let mut j: usize = 0;
    while j < bases.len()
        invariant
            j <= bases.len(),
            names == text::texts(files@),
            all == text::texts(bases@),
            text::is_ascending(text::texts(out@)),
            forall|s: Seq<char>| #[trigger]
                text::texts(out@).contains(s) <==> before.contains(s) || exists|m: int|
                    0 <= m < j && #[trigger] base_shows(names, all[m], s),
        decreases bases.len() - j,
    {
        let ghost mid = text::texts(out@);
        assert(all[j as int] == bases@[j as int]@);
        add_base_schemes(out, files, bases[j].as_str());
        assert forall|s: Seq<char>| #[trigger] text::texts(out@).contains(s) <==> before.contains(s)
            || exists|m: int| 0 <= m < j + 1 && #[trigger] base_shows(names, all[m], s) by {
            if mid.contains(s) && !before.contains(s) {
                let m = choose|m: int| 0 <= m < j && #[trigger] base_shows(names, all[m], s);
                assert(base_shows(names, all[m], s));
            }
            if base_shows(names, all[j as int], s) {
                assert(mid.contains(s) || text::texts(out@).contains(s));
            }
        }
        j += 1;
    }
}

/// Whether one of some files shows scheme `s` for a base name of one of some stems.
pub open spec fn stems_show(
    files: Seq<Seq<char>>,
    stems: Seq<Seq<char>>,
    s: Seq<char>,
) -> bool {
    exists|i: int| 0 <= i < stems.len() && #[trigger] bases_show(files, base_names(stems[i]), s)
}

/// The texture schemes that the files of the texture directory show for some
/// materials: each once, in ascending order.
pub fn discover_texture_schemes(file_names: &Vec<String>, mfm_stems: &Vec<String>) -> (r: Vec<
    String,
>)
    ensures
        text::is_ascending(text::texts(r@)),
        forall|s: Seq<char>| #[trigger]
            text::texts(r@).contains(s) <==> stems_show(
                text::texts(file_names@),
                text::texts(mfm_stems@),
                s,
            ),
{
    let ghost names = text::texts(file_names@);
    let ghost stems = text::texts(mfm_stems@);
    let mut out: Vec<String> = Vec::new();
    let mut i: usize = 0;
    while i < mfm_stems.len()
        invariant
            i <= mfm_stems.len(),
            names == text::texts(file_names@),
            stems == text::texts(mfm_stems@),
            text::is_ascending(text::texts(out@)),
            forall|s: Seq<char>| #[trigger]
                text::texts(out@).contains(s) <==> exists|m: int|
                    0 <= m < i && #[trigger] bases_show(names, base_names(stems[m]), s),
        decreases mfm_stems.len() - i,
    {
        let ghost mid = text::texts(out@);
        assert(stems[i as int] == mfm_stems@[i as int]@);
        add_stem_schemes(&mut out, file_names, mfm_stems[i].as_str());
        assert forall|s: Seq<char>| #[trigger] text::texts(out@).contains(s) <==> exists|m: int|
            0 <= m < i + 1 && #[trigger] bases_show(names, base_names(stems[m]), s) by {
            if mid.contains(s) {
                let m = choose|m: int|
                    0 <= m < i && #[trigger] bases_show(names, base_names(stems[m]), s);
                assert(bases_show(names, base_names(stems[m]), s));
            }
            if bases_show(names, base_names(stems[i as int]), s) {
                assert(mid.contains(s) || text::texts(out@).contains(s));
            }
        }
        i += 1;
    }
    out
}

// ---- What names lead to -----------------------------------------------------

proof fn names_stay(names: Seq<Seq<char>>, name: Seq<char>, other: Seq<char>)
    ensures
        names.contains(other) ==> with_name(names, name).contains(other),
        with_name(names, name).contains(name),
{
    let now = with_name(names, name);
    if names.contains(other) {
        let k = choose|k: int| 0 <= k < names.len() && names[k] == other;
        assert(now[k] == other);
    }
    if !names.contains(name) {
        assert(now[names.len() as int] == name);
    }
}

proof fn stripped_names_stay(
    names: Seq<Seq<char>>,
    stem: Seq<char>,
    suffix: Seq<char>,
    other: Seq<char>,
)
    ensures
        names.contains(other) ==> with_stripped(names, stem, suffix).contains(other),
        text::has_suffix(stem, suffix) ==> with_stripped(names, stem, suffix).contains(
            stem.take(stem.len() - suffix.len()),
        ),
{
    names_stay(names, stem.take(stem.len() - suffix.len()), other);
    names_stay(
        names,
        stem.take(stem.len() - suffix.len()),
        stem.take(stem.len() - suffix.len()),
    );
}

proof fn found_names_stay(names: Seq<Seq<char>>, name: Option<Seq<char>>, other: Seq<char>)
    ensures
        names.contains(other) ==> with_found(names, name).contains(other),
        name matches Some(n) && n.len() > 0 ==> with_found(names, name).contains(name->0),
{
    if let Some(n) = name {
        names_stay(names, n, other);
        names_stay(names, n, n);
    }
}

/// A stem is looked for without the endings of skinned, wire, dead, blaze and alpha
/// materials, and without its year.
#[verifier::rlimit(50)]
pub proof fn base_names_drop_endings_and_years(base: Seq<char>, stem: Seq<char>)
    ensures
        stem == base + "_skinned"@ || stem == base + "_wire"@ || stem == base + "_dead"@ || stem
            == base + "_blaze"@ || stem == base + "_alpha"@ ==> base_names(stem).contains(base),
        has_year(stem) && without_year(stem)->0.len() > 0 ==> base_names(stem).contains(
            without_year(stem)->0,
        ),
        has_year(stem) && up_to_year(stem)->0.len() > 0 ==> base_names(stem).contains(
            up_to_year(stem)->0,
        ),
        base_names(stem).contains(stem),
{
    let n0 = seq![stem];
    let n1 = with_stripped(n0, stem, "_skinned"@);
    let n2 = with_stripped(n1, stem, "_wire"@);
    let n3 = with_stripped(n2, stem, "_dead"@);
    let n4 = with_stripped(n3, stem, "_blaze"@);
    let n5 = with_stripped(n4, stem, "_alpha"@);
    let n6 = with_found(n5, without_year(stem));
    assert(n0[0] == stem);
    assert forall|x: Seq<char>|
        #![trigger base_names(stem).contains(x)]
        n0.contains(x) || n1.contains(x) || n2.contains(x) || n3.contains(x) || n4.contains(x)
            || n5.contains(x) || n6.contains(x) implies base_names(stem).contains(x) by {
        stripped_names_stay(n0, stem, "_skinned"@, x);
        stripped_names_stay(n1, stem, "_wire"@, x);
        stripped_names_stay(n2, stem, "_dead"@, x);
        stripped_names_stay(n3, stem, "_blaze"@, x);
        stripped_names_stay(n4, stem, "_alpha"@, x);
        found_names_stay(n5, without_year(stem), x);
        found_names_stay(n6, up_to_year(stem), x);
    }
    stripped_names_stay(n0, stem, "_skinned"@, stem);
    stripped_names_stay(n1, stem, "_wire"@, stem);
    stripped_names_stay(n2, stem, "_dead"@, stem);
    stripped_names_stay(n3, stem, "_blaze"@, stem);
    stripped_names_stay(n4, stem, "_alpha"@, stem);
    found_names_stay(n5, without_year(stem), stem);
    found_names_stay(n6, up_to_year(stem), stem);
    assert(base_names(stem).contains(stem));
    endings_come_off(base, "_skinned"@);
    endings_come_off(base, "_wire"@);
    endings_come_off(base, "_dead"@);
    endings_come_off(base, "_blaze"@);
    endings_come_off(base, "_alpha"@);
}

proof fn endings_come_off(base: Seq<char>, suffix: Seq<char>)
    ensures
        text::has_suffix(base + suffix, suffix),
        (base + suffix).take((base + suffix).len() - suffix.len()) == base,
{
    text_laws::prefixes_are_continued(base, suffix);
    assert((base + suffix).take((base + suffix).len() - suffix.len()) =~= base);
}

/// A year is an underscore and four digits, followed by an underscore or nothing; the first
/// one is cut out, or cut off with all that follows.
pub proof fn years_are_cut_out(a: Seq<char>, year: Seq<char>, b: Seq<char>)
    requires
        year.len() == 4,
        forall|i: int| 0 <= i < 4 ==> is_digit(#[trigger] year[i]),
        b.len() == 0 || b[0] == '_',
        forall|j: int| 0 <= j < a.len() ==> !#[trigger] year_at(a + seq!['_'] + year + b, j),
    ensures
        without_year(a + seq!['_'] + year + b) == Some(a + b),
        up_to_year(a + seq!['_'] + year + b) == Some(a),
{
    let s = a + seq!['_'] + year + b;
    let n = a.len() as int;
    assert(year[0] == s[n + 1] && year[1] == s[n + 2] && year[2] == s[n + 3] && year[3] == s[n + 4]);
    assert(year_at(s, n));
    year_position_is_a_year(s);
    let p = year_position(s);
    if p < n {
        assert(year_at(s, p));
    } else if p > n {
        assert(!year_at(s, n));
    }
    assert(s.take(n) =~= a);
    assert(s.skip(n + 5) =~= b);
}

/// A camouflage texture is named after its base and its scheme; the file of the channel and
/// the largest level come first.
pub proof fn camo_textures_are_named_after_their_scheme(base: Seq<char>, scheme: Seq<char>)
    ensures
        ({
            let p = camo_paths(base, scheme);
            let s = "content/gameplay/common/camouflage/textures/"@ + base + "_"@ + scheme;
            &&& p.len() == 4
            &&& p[0] == s + "_a.dd0"@
            &&& p[1] == s + "_a.dds"@
            &&& p[2] == s + ".dd0"@
            &&& p[3] == s + ".dds"@
        }),
{
    reveal_strlit("content/gameplay/common/camouflage/textures/");
    reveal_strlit("content/gameplay/common/camouflage/textures");
    reveal_strlit("/");
    assert(TEXTURE_BASE@ + "/"@ =~= "content/gameplay/common/camouflage/textures/"@);
}

/// Every base name has its candidates, before those of later ones.
pub proof fn camo_candidates_follow_the_bases(
    bases: Seq<Seq<char>>,
    scheme: Seq<char>,
    n: int,
    k: int,
    i: int,
)
    requires
        0 <= k < n <= bases.len(),
        0 <= i < 4,
    ensures
        camo_candidates_of(bases, scheme, n).len() == 4 * n,
        camo_candidates_of(bases, scheme, n)[4 * k + i] == (
            bases[k],
            camo_paths(bases[k], scheme)[i],
        ),
    decreases n,
{
    if n > 1 {
        let j = if k < n - 1 {
            k
        } else {
            0
        };
        camo_candidates_follow_the_bases(bases, scheme, n - 1, j, i);
    } else {
        assert(camo_candidates_of(bases, scheme, 0).len() == 0);
    }
}

/// The parts of the path of a material file: its directory, the one above, and its stem.
pub proof fn material_paths_fall_apart(parent: Seq<char>, dir: Seq<char>, stem: Seq<char>)
    requires
        !dir.contains('/'),
        !stem.contains('/'),
    ensures
        mfm_parts(parent + "/"@ + dir + "/"@ + stem + ".mfm"@) == Some(
            (parent + "/"@ + dir, Some(parent), stem),
        ),
{
    reveal_strlit("/");
    reveal_strlit(".mfm");
    let whole = parent + "/"@ + dir;
    let file = stem + ".mfm"@;
    assert(!file.contains('/')) by {
        if file.contains('/') {
            let i = choose|i: int| 0 <= i < file.len() && file[i] == '/';
            if i < stem.len() {
                assert(stem[i] == '/');
            } else {
                assert(".mfm"@[i - stem.len()] == '/');
            }
        }
    }
    assert(parent + "/"@ + dir + "/"@ + stem + ".mfm"@ =~= whole.push('/') + file);
    text_laws::texts_split_at_the_last_character(whole, file, '/');
    assert(whole =~= parent.push('/') + dir);
    text_laws::texts_split_at_the_last_character(parent, dir, '/');
    text_laws::prefixes_are_continued(stem, ".mfm"@);
    assert(file.take(file.len() - 4) =~= stem);
}

/// The scheme of a camouflage file is what stands between its base name and its ending,
/// without the channel.
pub proof fn schemes_stand_behind_the_base(base: Seq<char>, scheme: Seq<char>)
    requires
        scheme.len() > 0,
        !text::has_suffix(scheme, "_a"@),
        !text::has_suffix(scheme, "_mg"@),
        !text::has_suffix(scheme, "_mgn"@),
    ensures
        scheme_shown(base + "_"@ + scheme + ".dds"@, base) == Some(scheme),
        scheme_shown(base + "_"@ + scheme + "_a"@ + ".dds"@, base) == Some(scheme),
        scheme_shown(base + "_"@ + scheme + "_mg"@ + ".dds"@, base) == Some(scheme),
        scheme_shown(base + "_"@ + scheme + "_mgn"@ + ".dds"@, base) == Some(scheme),
{
    reveal_strlit("_a");
    reveal_strlit("_mg");
    reveal_strlit("_mgn");
    reveal_strlit(".dds");
    raw_schemes_stand_behind_the_base(base, scheme);
    raw_schemes_stand_behind_the_base(base, scheme + "_a"@);
    raw_schemes_stand_behind_the_base(base, scheme + "_mg"@);
    raw_schemes_stand_behind_the_base(base, scheme + "_mgn"@);
    assert(base + "_"@ + (scheme + "_a"@) + ".dds"@ =~= base + "_"@ + scheme + "_a"@ + ".dds"@);
    assert(base + "_"@ + (scheme + "_mg"@) + ".dds"@ =~= base + "_"@ + scheme + "_mg"@ + ".dds"@);
    assert(base + "_"@ + (scheme + "_mgn"@) + ".dds"@ =~= base + "_"@ + scheme + "_mgn"@ + ".dds"@);
    endings_come_off(scheme, "_a"@);
    endings_come_off(scheme, "_mg"@);
    endings_come_off(scheme, "_mgn"@);
    last_characters(scheme + "_mg"@, "_a"@);
    last_characters(scheme + "_mgn"@, "_a"@);
    last_characters(scheme + "_mgn"@, "_mg"@);
}

proof fn last_characters(s: Seq<char>, p: Seq<char>)
    requires
        s.len() > 0,
        p.len() > 0,
        s.last() != p.last(),
    ensures
        !text::has_suffix(s, p),
{
    if text::has_suffix(s, p) {
        assert(s.subrange(s.len() - p.len(), s.len() as int)[p.len() - 1] == s.last());
    }
}

proof fn raw_schemes_stand_behind_the_base(base: Seq<char>, raw: Seq<char>)
    requires
        raw.len() > 0,
    ensures
        raw_scheme(base + "_"@ + raw + ".dds"@, base) == Some(raw),
{
    let prefix = base + "_"@;
    let rest = raw + ".dds"@;
    let file = base + "_"@ + raw + ".dds"@;
    assert(file =~= prefix + rest);
    text_laws::prefixes_are_continued(rest, prefix);
    assert(file.skip(prefix.len() as int) =~= rest);
    endings_come_off(raw, ".dds"@);
}

/// A texture is looked for by its largest level first: the last three characters of its
/// ending are exchanged, wherever it stands.
pub proof fn largest_levels_come_first(stem: Seq<char>)
    requires
        forall|i: int| 0 <= i < stem.len() ==> !#[trigger] text::stands_at(stem + ".dds"@, i, ".dds"@),
    ensures
        hashed_candidates(stem + ".dds"@) == seq![stem + ".dd0"@, stem + ".dds"@],
{
    text_laws::prefixes_are_continued(stem, ".dds"@);
    reveal_strlit(".dds");
    endings_are_exchanged(stem);
}

proof fn endings_are_exchanged(stem: Seq<char>)
    requires
        forall|i: int| 0 <= i < stem.len() ==> !#[trigger] text::stands_at(stem + ".dds"@, i, ".dds"@),
    ensures
        text::replaced(stem + ".dds"@, ".dds"@, ".dd0"@) == stem + ".dd0"@,
    decreases stem.len(),
{
    reveal_strlit(".dds");
    let s = stem + ".dds"@;
    if stem.len() > 0 {
        let rest = stem.skip(1);
        assert(!text::stands_at(s, 0, ".dds"@));
        assert(s.skip(1) =~= rest + ".dds"@);
        assert forall|i: int| 0 <= i < rest.len() implies !#[trigger] text::stands_at(
            rest + ".dds"@,
            i,
            ".dds"@,
        ) by {
            assert(!text::stands_at(s, i + 1, ".dds"@));
            assert((rest + ".dds"@).subrange(i, i + 4) =~= s.subrange(i + 1, i + 5));
        }
        endings_are_exchanged(rest);
        assert(seq![s[0]] + (rest + ".dd0"@) =~= stem + ".dd0"@);
    } else {
        assert(s =~= ".dds"@);
        assert(s.subrange(0, 4) =~= ".dds"@);
        assert(s.skip(4) =~= Seq::<char>::empty());
        assert(text::replaced(s.skip(4), ".dds"@, ".dd0"@) =~= Seq::<char>::empty());
        assert(".dd0"@ + Seq::<char>::empty() =~= stem + ".dd0"@);
    }
}

/// The colours of a material are looked for among the textures beside its directory, then
/// in the directory, then among its tiles, always the largest level first.
pub proof fn colours_are_looked_for_nearby(
    dir: Seq<char>,
    parent: Seq<char>,
    base: Seq<char>,
    suffix: Seq<char>,
)
    ensures
        ({
            let p = albedo_paths(dir, Some(parent), base, suffix);
            &&& p.len() == 6
            &&& p[0] == parent + "/textures/"@ + base + suffix + ".dd0"@
            &&& p[1] == parent + "/textures/"@ + base + suffix + ".dds"@
            &&& p[2] == dir + "/"@ + base + suffix + ".dd0"@
            &&& p[3] == dir + "/"@ + base + suffix + ".dds"@
            &&& p[4] == dir + "/TILED/"@ + base + suffix + ".dd0"@
            &&& p[5] == dir + "/TILED/"@ + base + suffix + ".dds"@
        }),
        albedo_paths(dir, None, base, suffix).len() == 4,
        albedo_paths(dir, None, base, suffix)[0] == dir + "/"@ + base + suffix + ".dd0"@,
{
}

/// The names of a material are tried in order, each with the ending `_a` first and then with
/// `_od`.
pub proof fn names_are_tried_in_order(
    dir: Seq<char>,
    parent: Seq<char>,
    bases: Seq<Seq<char>>,
    n: int,
    k: int,
    j: int,
)
    requires
        0 <= k < n <= bases.len(),
        0 <= j < 6,
    ensures
        albedo_candidates_of(dir, Some(parent), bases, n).len() == 12 * n,
        albedo_candidates_of(dir, Some(parent), bases, n)[12 * k + j] == albedo_paths(
            dir,
            Some(parent),
            bases[k],
            "_a"@,
        )[j],
        albedo_candidates_of(dir, Some(parent), bases, n)[12 * k + 6 + j] == albedo_paths(
            dir,
            Some(parent),
            bases[k],
            "_od"@,
        )[j],
    decreases n,
{
    colours_are_looked_for_nearby(dir, parent, bases[n - 1], "_a"@);
    colours_are_looked_for_nearby(dir, parent, bases[n - 1], "_od"@);
    let before = albedo_candidates_of(dir, Some(parent), bases, n - 1);
    if n > 1 {
        names_are_tried_in_order(
            dir,
            parent,
            bases,
            n - 1,
            if k < n - 1 {
                k
            } else {
                0
            },
            j,
        );
    } else {
        assert(before.len() == 0);
    }
    assert(before.len() == 12 * (n - 1));
}

} // verus!
