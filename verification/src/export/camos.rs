//! Camouflages that a ship can wear.
use vstd::prelude::*;

use crate::export::ships;
use crate::export::ships::ParamInfo;
use crate::slots;
use crate::slots::NamedSlot;
use crate::text;

verus! {

/// A camouflage as it applies to a ship.
#[derive(Debug)]
pub struct CamoEntry {
    pub camo_name: String,
    /// Textures of the parts of the ship.
    pub textures: Vec<String>,
    pub tiled: bool,
    pub color_scheme: Option<String>,
}

/// Four colours by name, as bit patterns.
#[derive(Debug, Clone, Copy)]
pub struct SchemeColors {
    pub colors: [[u32; 4]; 4],
}

impl View for SchemeColors {
    type V = [[u32; 4]; 4];

    open spec fn view(&self) -> [[u32; 4]; 4] {
        self.colors
    }
}

/// What the camouflages of a ship are looked up in.
#[derive(Debug)]
pub struct CamoCatalog {
    pub entries: Vec<CamoEntry>,
    pub color_schemes: Vec<NamedSlot<SchemeColors>>,
    /// Translated names by key.
    pub translations: Vec<NamedSlot<String>>,
}

/// An exterior with its camouflage.
#[derive(Debug)]
pub struct CamoCandidate {
    pub camo_name: String,
    /// Key of the translated name.
    pub ids_key: String,
    /// Name where there is no translation.
    pub fallback: Option<String>,
}

pub struct CamoCandidateView {
    pub camo_name: Seq<char>,
    pub ids_key: Seq<char>,
    pub fallback: Option<Seq<char>>,
}

impl View for CamoCandidate {
    type V = CamoCandidateView;

    open spec fn view(&self) -> CamoCandidateView {
        CamoCandidateView {
            camo_name: self.camo_name@,
            ids_key: self.ids_key@,
            fallback: text::opt_text(self.fallback),
        }
    }
}

pub open spec fn candidate_views(s: Seq<CamoCandidate>) -> Seq<CamoCandidateView> {
    Seq::new(s.len(), |i: int| s[i]@)
}

/// A camouflage with what showing it needs.
#[derive(Debug)]
pub struct MatCamoScheme {
    pub display_name: String,
    /// Textures, each once.
    pub texture_paths: Vec<String>,
    pub tiled: bool,
    pub color_scheme_colors: Option<SchemeColors>,
    /// Index of its entry.
    pub entry: usize,
}

pub struct MatCamoSchemeView {
    pub display_name: Seq<char>,
    pub texture_paths: Seq<Seq<char>>,
    pub tiled: bool,
    pub color_scheme_colors: Option<[[u32; 4]; 4]>,
    pub entry: int,
}

impl View for MatCamoScheme {
    type V = MatCamoSchemeView;

    open spec fn view(&self) -> MatCamoSchemeView {
        MatCamoSchemeView {
            display_name: self.display_name@,
            texture_paths: text::texts(self.texture_paths@),
            tiled: self.tiled,
            color_scheme_colors: match self.color_scheme_colors {
                Some(c) => Some(c@),
                None => None,
            },
            entry: self.entry as int,
        }
    }
}

pub open spec fn scheme_views(s: Seq<MatCamoScheme>) -> Seq<MatCamoSchemeView> {
    Seq::new(s.len(), |i: int| s[i]@)
}

// ---- Schemes ----------------------------------------------------------------

/// Index of the first entry of a camouflage, from `i` on.
pub open spec fn entry_from(entries: Seq<CamoEntry>, name: Seq<char>, i: int) -> Option<int>
    decreases entries.len() - i,
{
    if i < 0 || i >= entries.len() {
        None
    } else if entries[i].camo_name@ == name {
        Some(i)
    } else {
        entry_from(entries, name, i + 1)
    }
}

fn find_entry(entries: &Vec<CamoEntry>, name: &str) -> (r: Option<usize>)
    ensures
        match r {
            Some(i) => entry_from(entries@, name@, 0) == Some(i as int) && i < entries@.len(),
            None => entry_from(entries@, name@, 0) is None,
        },
{
    let mut i: usize = 0;
    while i < entries.len()
        invariant
            i <= entries.len(),
            entry_from(entries@, name@, i as int) == entry_from(entries@, name@, 0),
        decreases entries.len() - i,
    {
        if text::same(entries[i].camo_name.as_str(), name) {
            return Some(i);
        }
        i += 1;
    }
    None
}

/// The first `n` texts of a list, each once, in the order of their first occurrence.
pub open spec fn distinct(s: Seq<Seq<char>>, n: int) -> Seq<Seq<char>>
    decreases n,
{
    if n <= 0 {
        Seq::empty()
    } else {
        let before = distinct(s, n - 1);
        if before.contains(s[n - 1]) {
            before
        } else {
            before.push(s[n - 1])
        }
    }
}

/// Keeps the first of equal texts.
pub fn keep_distinct(list: &Vec<String>) -> (r: Vec<String>)
    ensures
        text::texts(r@) == distinct(text::texts(list@), list@.len() as int),
{
    let mut out: Vec<String> = Vec::new();
    let mut i: usize = 0;
    let ghost t = text::texts(list@);
    assert(text::texts(out@) =~= distinct(t, 0));
    while i < list.len()
        invariant
            i <= list.len(),
            t == text::texts(list@),
            text::texts(out@) == distinct(t, i as int),
        decreases list.len() - i,
    {
        let ghost before = text::texts(out@);
        if !text::contains_text(&out, list[i].as_str()) {
            out.push(text::copy(list[i].as_str()));
            assert(text::texts(out@) =~= before.push(t[i as int]));
        }
        i += 1;
    }
    out
}

/// No text of a list of distinct texts stands twice, and every text of the list stands
/// in it.
pub proof fn distinct_texts_stand_once(s: Seq<Seq<char>>, n: int)
    requires
        0 <= n <= s.len(),
    ensures
        distinct(s, n).no_duplicates(),
        forall|i: int| 0 <= i < n ==> distinct(s, n).contains(#[trigger] s[i]),
    decreases n,
{
    if n > 0 {
        distinct_texts_stand_once(s, n - 1);
        let before = distinct(s, n - 1);
        let now = distinct(s, n);
        assert forall|i: int| 0 <= i < n implies now.contains(#[trigger] s[i]) by {
            if i < n - 1 {
                let k = choose|k: int| 0 <= k < before.len() && before[k] == s[i];
                assert(now[k] == s[i]);
            } else if !before.contains(s[i]) {
                assert(now.last() == s[i]);
            }
        }
    }
}

/// The name that a camouflage is shown by: the translated one, else the fallback, else
/// its own.
pub open spec fn scheme_name(c: CamoCandidateView, catalog: CamoCatalog) -> Seq<char> {
    let names = slots::slots(catalog.translations@);
    match slots::slot_from(names, c.ids_key, 0) {
        Some(i) => names[i].1,
        None => match c.fallback {
            Some(f) => f,
            None => c.camo_name,
        },
    }
}

/// The colours of a tiled camouflage.
pub open spec fn scheme_colors(entry: CamoEntry, catalog: CamoCatalog) -> Option<[[u32; 4]; 4]> {
    let schemes = slots::slots(catalog.color_schemes@);
    match text::opt_text(entry.color_scheme) {
        Some(name) => match slots::slot_from(schemes, name, 0) {
            Some(i) => if entry.tiled {
                Some(schemes[i].1)
            } else {
                None
            },
            None => None,
        },
        None => None,
    }
}

/// The scheme of a candidate, if the catalogue has its camouflage with textures.
pub open spec fn scheme_of(c: CamoCandidateView, catalog: CamoCatalog) -> Option<
    MatCamoSchemeView,
> {
    match entry_from(catalog.entries@, c.camo_name, 0) {
        Some(e) => {
            let entry = catalog.entries@[e];
            if entry.textures@.len() == 0 {
                None
            } else {
                Some(
                    MatCamoSchemeView {
                        display_name: scheme_name(c, catalog),
                        texture_paths: distinct(
                            text::texts(entry.textures@),
                            entry.textures@.len() as int,
                        ),
                        tiled: entry.tiled,
                        color_scheme_colors: scheme_colors(entry, catalog),
                        entry: e,
                    },
                )
            }
        },
        None => None,
    }
}

/// Whether one of the first `n` candidates names a camouflage.
pub open spec fn is_seen(c: Seq<CamoCandidateView>, name: Seq<char>, n: int) -> bool {
    exists|i: int| 0 <= i < n && (#[trigger] c[i]).camo_name == name
}

/// The schemes of the first `n` candidates, each camouflage once.
pub open spec fn schemes_of(c: Seq<CamoCandidateView>, catalog: CamoCatalog, n: int) -> Seq<
    MatCamoSchemeView,
>
    decreases n,
{
    if n <= 0 {
        Seq::empty()
    } else {
        let before = schemes_of(c, catalog, n - 1);
        if is_seen(c, c[n - 1].camo_name, n - 1) {
            before
        } else {
            match scheme_of(c[n - 1], catalog) {
                Some(s) => before.push(s),
                None => before,
            }
        }
    }
}

fn show_name(c: &CamoCandidate, catalog: &CamoCatalog) -> (r: String)
    ensures
        r@ == scheme_name(c@, *catalog),
{
    match slots::find(&catalog.translations, c.ids_key.as_str()) {
        Some(i) => text::copy(catalog.translations[i].value.as_str()),
        None => match &c.fallback {
            Some(f) => text::copy(f.as_str()),
            None => text::copy(c.camo_name.as_str()),
        },
    }
}

fn find_colors(entry: &CamoEntry, catalog: &CamoCatalog) -> (r: Option<SchemeColors>)
    ensures
        match r {
            Some(c) => scheme_colors(*entry, *catalog) == Some(c@),
            None => scheme_colors(*entry, *catalog) is None,
        },
{
    match &entry.color_scheme {
        Some(name) => match slots::find(&catalog.color_schemes, name.as_str()) {
            Some(i) => if entry.tiled {
                Some(catalog.color_schemes[i].value)
            } else {
                None
            },
            None => None,
        },
        None => None,
    }
}

fn make_scheme(c: &CamoCandidate, catalog: &CamoCatalog) -> (r: Option<MatCamoScheme>)
    ensures
        match r {
            Some(s) => scheme_of(c@, *catalog) == Some(s@),
            None => scheme_of(c@, *catalog) is None,
        },
{
    match find_entry(&catalog.entries, c.camo_name.as_str()) {
        Some(e) => {
            let entry = &catalog.entries[e];
            if entry.textures.len() == 0 {
                None
            } else {
                Some(
                    MatCamoScheme {
                        display_name: show_name(c, catalog),
                        texture_paths: keep_distinct(&entry.textures),
                        tiled: entry.tiled,
                        color_scheme_colors: find_colors(entry, catalog),
                        entry: e,
                    },
                )
            }
        },
        None => None,
    }
}

fn was_seen(c: &Vec<CamoCandidate>, name: &str, n: usize) -> (r: bool)
    requires
        n <= c@.len(),
    ensures
        r == is_seen(candidate_views(c@), name@, n as int),
{
    let ghost views = candidate_views(c@);
    let mut i: usize = 0;
    while i < n
        invariant
            i <= n <= c@.len(),
            views == candidate_views(c@),
            forall|k: int| 0 <= k < i ==> (#[trigger] views[k]).camo_name != name@,
        decreases n - i,
    {
        if text::same(c[i].camo_name.as_str(), name) {
            assert(views[i as int].camo_name == name@);
            return true;
        }
        i += 1;
    }
    false
}

/// Resolves candidates: each camouflage once, if the catalogue has it with textures.
pub fn resolve_schemes(candidates: &Vec<CamoCandidate>, catalog: &CamoCatalog) -> (r: Vec<
    MatCamoScheme,
>)
    ensures
        scheme_views(r@) == schemes_of(
            candidate_views(candidates@),
            *catalog,
            candidates@.len() as int,
        ),
{
    let mut out: Vec<MatCamoScheme> = Vec::new();
    let mut i: usize = 0;
    let ghost c = candidate_views(candidates@);
    assert(scheme_views(out@) =~= schemes_of(c, *catalog, 0));
    while i < candidates.len()
        invariant
            i <= candidates.len(),
            c == candidate_views(candidates@),
            scheme_views(out@) == schemes_of(c, *catalog, i as int),
        decreases candidates.len() - i,
    {
        let ghost before = out@;
        assert(c[i as int] == candidates@[i as int]@);
        if !was_seen(candidates, candidates[i].camo_name.as_str(), i) {
            if let Some(s) = make_scheme(&candidates[i], catalog) {
                let ghost view = s@;
                out.push(s);
                assert(scheme_views(out@) =~= scheme_views(before).push(view));
            }
        }
        i += 1;
    }
    out
}

// ---- Candidates -------------------------------------------------------------

/// Index of the first parameter of the given name, from `i` on.
pub open spec fn name_from(params: Seq<ParamInfo>, name: Seq<char>, i: int) -> Option<int>
    decreases params.len() - i,
{
    if i < 0 || i >= params.len() {
        None
    } else if params[i].name@ == name {
        Some(i)
    } else {
        name_from(params, name, i + 1)
    }
}

/// The parameter that an exterior names: by name, else by index key.
pub open spec fn exterior_named(params: Seq<ParamInfo>, name: Seq<char>) -> Option<int> {
    match name_from(params, name, 0) {
        Some(i) => Some(i),
        None => ships::index_from(params, name, 0),
    }
}

/// The camouflage of a parameter that is an exterior.
pub open spec fn camouflage_of(p: ParamInfo) -> Option<Seq<char>> {
    match p.exterior {
        Some(camo) => text::opt_text(camo),
        None => None,
    }
}

/// The key of the translated name of an exterior.
pub open spec fn ids_key(name: Seq<char>) -> Seq<char> {
    "IDS_"@ + text::uppercase(name)
}

/// The exterior that a ship names as a candidate.
pub open spec fn named_candidate(params: Seq<ParamInfo>, name: Seq<char>) -> Option<
    CamoCandidateView,
> {
    match exterior_named(params, name) {
        Some(i) => match camouflage_of(params[i]) {
            Some(camo) => Some(
                CamoCandidateView {
                    camo_name: camo,
                    ids_key: ids_key(name),
                    fallback: text::opt_text(params[i].display_name),
                },
            ),
            None => None,
        },
        None => None,
    }
}

/// The first `n` exteriors that a ship names as candidates.
pub open spec fn named_candidates(
    params: Seq<ParamInfo>,
    names: Seq<Seq<char>>,
    n: int,
) -> Seq<CamoCandidateView>
    decreases n,
{
    if n <= 0 {
        Seq::empty()
    } else {
        let before = named_candidates(params, names, n - 1);
        match named_candidate(params, names[n - 1]) {
            Some(c) => before.push(c),
            None => before,
        }
    }
}

/// Candidates for every ship among the first `n` parameters: the exteriors whose names
/// start with `PCEC`.
pub open spec fn universal_candidates(params: Seq<ParamInfo>, n: int) -> Seq<CamoCandidateView>
    decreases n,
{
    if n <= 0 {
        Seq::empty()
    } else {
        let before = universal_candidates(params, n - 1);
        match camouflage_of(params[n - 1]) {
            Some(camo) => if text::has_prefix(params[n - 1].name@, "PCEC"@) {
                before.push(
                    CamoCandidateView {
                        camo_name: camo,
                        ids_key: ids_key(params[n - 1].name@),
                        fallback: None,
                    },
                )
            } else {
                before
            },
            None => before,
        }
    }
}

fn find_exterior(params: &Vec<ParamInfo>, name: &str) -> (r: Option<usize>)
    ensures
        match r {
            Some(i) => exterior_named(params@, name@) == Some(i as int) && i < params@.len(),
            None => exterior_named(params@, name@) is None,
        },
{
    let mut i: usize = 0;
    while i < params.len()
        invariant
            i <= params.len(),
            name_from(params@, name@, i as int) == name_from(params@, name@, 0),
        decreases params.len() - i,
    {
        if text::same(params[i].name.as_str(), name) {
            return Some(i);
        }
        i += 1;
    }
    let mut j: usize = 0;
    while j < params.len()
        invariant
            j <= params.len(),
            name_from(params@, name@, 0) is None,
            ships::index_from(params@, name@, j as int) == ships::index_from(params@, name@, 0),
        decreases params.len() - j,
    {
        if text::same(params[j].index.as_str(), name) {
            return Some(j);
        }
        j += 1;
    }
    None
}

fn make_key(name: &str) -> (r: String)
    ensures
        r@ == ids_key(name@),
{
    text::concat("IDS_", text::to_uppercase(name).as_str())
}

fn add_candidate(list: &mut Vec<CamoCandidate>, c: CamoCandidate)
    ensures
        candidate_views(final(list)@) == candidate_views(old(list)@).push(c@),
{
    let ghost before = list@;
    list.push(c);
    assert(candidate_views(list@) =~= candidate_views(before).push(c@));
}

fn collect_named(params: &Vec<ParamInfo>, names: &Vec<String>) -> (r: Vec<CamoCandidate>)
    ensures
        candidate_views(r@) == named_candidates(
            params@,
            text::texts(names@),
            names@.len() as int,
        ),
{
    let mut out: Vec<CamoCandidate> = Vec::new();
    let mut i: usize = 0;
    let ghost t = text::texts(names@);
    assert(candidate_views(out@) =~= named_candidates(params@, t, 0));
    while i < names.len()
        invariant
            i <= names.len(),
            t == text::texts(names@),
            candidate_views(out@) == named_candidates(params@, t, i as int),
        decreases names.len() - i,
    {
        let name = names[i].as_str();
        if let Some(p) = find_exterior(params, name) {
            if let Some(exterior) = &params[p].exterior {
                if let Some(camo) = exterior {
                    let fallback = match &params[p].display_name {
                        Some(n) => Some(text::copy(n.as_str())),
                        None => None,
                    };
                    let c = CamoCandidate {
                        camo_name: text::copy(camo.as_str()),
                        ids_key: make_key(name),
                        fallback,
                    };
                    assert(named_candidate(params@, t[i as int]) == Some(c@));
                    add_candidate(&mut out, c);
                }
            }
        }
        i += 1;
    }
    out
}

fn collect_universal(params: &Vec<ParamInfo>) -> (r: Vec<CamoCandidate>)
    ensures
        candidate_views(r@) == universal_candidates(params@, params@.len() as int),
{
    let mut out: Vec<CamoCandidate> = Vec::new();
    let mut i: usize = 0;
    assert(candidate_views(out@) =~= universal_candidates(params@, 0));
    while i < params.len()
        invariant
            i <= params.len(),
            candidate_views(out@) == universal_candidates(params@, i as int),
        decreases params.len() - i,
    {
        if text::starts_with(params[i].name.as_str(), "PCEC") {
            if let Some(exterior) = &params[i].exterior {
                if let Some(camo) = exterior {
                    let c = CamoCandidate {
                        camo_name: text::copy(camo.as_str()),
                        ids_key: make_key(params[i].name.as_str()),
                        fallback: None,
                    };
                    add_candidate(&mut out, c);
                }
            }
        }
        i += 1;
    }
    out
}

/// The exteriors that the ship with a model directory names.
pub open spec fn exteriors_of(params: Seq<ParamInfo>, model_dir: Seq<char>) -> Seq<Seq<char>> {
    match ships::vehicle_from(params, model_dir, 0) {
        Some(i) => match params[i].vehicle {
            Some(v) => text::texts(v.permoflages@),
            None => Seq::empty(),
        },
        None => Seq::empty(),
    }
}

/// Finds the camouflages that a ship names.
pub fn discover_mat_camo_schemes(
    params: &Vec<ParamInfo>,
    model_dir: &str,
    catalog: &CamoCatalog,
) -> (r: Vec<MatCamoScheme>)
    ensures
        ({
            let names = exteriors_of(params@, model_dir@);
            let c = named_candidates(params@, names, names.len() as int);
            scheme_views(r@) == schemes_of(c, *catalog, c.len() as int)
        }),
{
    let ghost names = exteriors_of(params@, model_dir@);
    let candidates = match ships::find_vehicle(params, model_dir) {
        Some(i) => match &params[i].vehicle {
            Some(v) => collect_named(params, &v.permoflages),
            None => Vec::new(),
        },
        None => Vec::new(),
    };
    assert(candidate_views(candidates@) =~= named_candidates(
        params@,
        names,
        names.len() as int,
    ));
    resolve_schemes(&candidates, catalog)
}

/// Finds the camouflages that every ship can wear.
pub fn discover_universal_camo_schemes(params: &Vec<ParamInfo>, catalog: &CamoCatalog) -> (r: Vec<
    MatCamoScheme,
>)
    ensures
        ({
            let c = universal_candidates(params@, params@.len() as int);
            scheme_views(r@) == schemes_of(c, *catalog, c.len() as int)
        }),
{
    let candidates = collect_universal(params);
    resolve_schemes(&candidates, catalog)
}

/// How a scheme is listed: its name and its kind.
pub open spec fn scheme_label(name: Seq<char>, tiled: bool, universal: bool) -> Seq<char> {
    name + " ("@ + (if universal {
        "universal/"@
    } else {
        ""@
    }) + (if tiled {
        "tiled"@
    } else {
        "mat_camo"@
    }) + ")"@
}

/// Writes a scheme for a list.
pub fn label_scheme(scheme: &MatCamoScheme, universal: bool) -> (r: String)
    ensures
        r@ == scheme_label(scheme.display_name@, scheme.tiled, universal),
{
    let mut out = text::concat(scheme.display_name.as_str(), " (");
    if universal {
        out.append("universal/");
    } else {
        out.append("");
    }
    if scheme.tiled {
        out.append("tiled");
    } else {
        out.append("mat_camo");
    }
    out.append(")");
    out
}

/// The labels of some schemes.
pub open spec fn scheme_labels(s: Seq<MatCamoSchemeView>, universal: bool) -> Seq<Seq<char>> {
    Seq::new(s.len(), |i: int| scheme_label(s[i].display_name, s[i].tiled, universal))
}

fn add_labels(list: &mut Vec<String>, schemes: &Vec<MatCamoScheme>, universal: bool)
    ensures
        text::texts(final(list)@) == text::texts(old(list)@) + scheme_labels(
            scheme_views(schemes@),
            universal,
        ),
{
    let ghost start = text::texts(list@);
    let ghost labels = scheme_labels(scheme_views(schemes@), universal);
    let mut i: usize = 0;
    assert(start + labels.take(0) =~= start);
    while i < schemes.len()
        invariant
            i <= schemes.len(),
            labels == scheme_labels(scheme_views(schemes@), universal),
            text::texts(list@) == start + labels.take(i as int),
        decreases schemes.len() - i,
    {
        let ghost before = text::texts(list@);
        let label = label_scheme(&schemes[i], universal);
        assert(label@ == labels[i as int]);
        list.push(label);
        assert(text::texts(list@) =~= before.push(labels[i as int]));
        i += 1;
        assert(text::texts(list@) =~= start + labels.take(i as int));
    }
    assert(labels.take(labels.len() as int) =~= labels);
}

/// Lists what a ship can wear: the schemes of its textures, its own camouflages and those
/// that every ship can wear.
pub fn list_texture_schemes(
    texture_schemes: Vec<String>,
    own: &Vec<MatCamoScheme>,
    universal: &Vec<MatCamoScheme>,
) -> (r: Vec<String>)
    ensures
        text::texts(r@) == text::texts(texture_schemes@) + scheme_labels(
            scheme_views(own@),
            false,
        ) + scheme_labels(scheme_views(universal@), true),
{
    let mut out = texture_schemes;
    add_labels(&mut out, own, false);
    add_labels(&mut out, universal, true);
    out
}

/// Every scheme has textures, each once.
pub proof fn schemes_have_distinct_textures(c: Seq<CamoCandidateView>, catalog: CamoCatalog, n: int)
    requires
        0 <= n <= c.len(),
    ensures
        forall|k: int|
            0 <= k < schemes_of(c, catalog, n).len() ==> {
                let s = #[trigger] schemes_of(c, catalog, n)[k];
                s.texture_paths.len() > 0 && s.texture_paths.no_duplicates()
            },
    decreases n,
{
    if n > 0 {
        schemes_have_distinct_textures(c, catalog, n - 1);
        let before = schemes_of(c, catalog, n - 1);
        let now = schemes_of(c, catalog, n);
        assert forall|k: int| 0 <= k < now.len() implies {
            let s = #[trigger] now[k];
            s.texture_paths.len() > 0 && s.texture_paths.no_duplicates()
        } by {
            if k < before.len() {
                assert(now[k] == before[k]);
            } else {
                let e = entry_from(catalog.entries@, c[n - 1].camo_name, 0)->0;
                let t = text::texts(catalog.entries@[e].textures@);
                distinct_texts_stand_once(t, t.len() as int);
                assert(distinct(t, t.len() as int).contains(t[0]));
            }
        }
    }
}

// ---- Which camouflage is shown ----------------------------------------------

/// Of several entries of one camouflage the first one counts.
pub proof fn first_entries_count(entries: Seq<CamoEntry>, name: Seq<char>, i: int, k: int)
    requires
        0 <= i <= k < entries.len(),
        entries[k].camo_name@ == name,
        forall|j: int| i <= j < k ==> (#[trigger] entries[j]).camo_name@ != name,
    ensures
        entry_from(entries, name, i) == Some(k),
    decreases k - i,
{
    if i < k {
        first_entries_count(entries, name, i + 1, k);
    }
}

/// Of several entries of one name the first one counts.
pub proof fn first_params_count(params: Seq<ParamInfo>, name: Seq<char>, i: int, k: int)
    requires
        0 <= i <= k < params.len(),
        params[k].name@ == name,
        forall|j: int| i <= j < k ==> (#[trigger] params[j]).name@ != name,
    ensures
        name_from(params, name, i) == Some(k),
        i == 0 ==> exterior_named(params, name) == Some(k),
    decreases k - i,
{
    if i < k {
        first_params_count(params, name, i + 1, k);
    }
}

/// A scheme shows the textures of its camouflage, each once, and has colours only if it is
/// tiled. It goes by its translation, else by the name of its exterior, else by that of the
/// camouflage.
pub proof fn schemes_show_their_camouflage(c: CamoCandidateView, catalog: CamoCatalog, e: int)
    requires
        entry_from(catalog.entries@, c.camo_name, 0) == Some(e),
        0 <= e < catalog.entries@.len(),
        catalog.entries@[e].textures@.len() > 0,
    ensures
        scheme_of(c, catalog) matches Some(s) && {
            let names = slots::slots(catalog.translations@);
            &&& s.entry == e
            &&& s.tiled == catalog.entries@[e].tiled
            &&& !s.tiled ==> s.color_scheme_colors is None
            &&& forall|i: int|
                0 <= i < catalog.entries@[e].textures@.len() ==> s.texture_paths.contains(
                    (#[trigger] catalog.entries@[e].textures@[i])@,
                )
            &&& s.texture_paths.no_duplicates()
            &&& (slots::slot_from(names, c.ids_key, 0) matches Some(i) ==> s.display_name
                == names[i].1)
            &&& slots::slot_from(names, c.ids_key, 0) is None && c.fallback is Some
                ==> s.display_name == c.fallback->0
            &&& slots::slot_from(names, c.ids_key, 0) is None && c.fallback is None
                ==> s.display_name == c.camo_name
        },
{
    let t = text::texts(catalog.entries@[e].textures@);
    distinct_texts_stand_once(t, t.len() as int);
    let s = scheme_of(c, catalog)->0;
    assert forall|i: int| 0 <= i < catalog.entries@[e].textures@.len() implies s.texture_paths.contains(
        (#[trigger] catalog.entries@[e].textures@[i])@,
    ) by {
        assert(t[i] == catalog.entries@[e].textures@[i]@);
        assert(distinct(t, t.len() as int).contains(t[i]));
    }
}

/// Of several candidates of one camouflage the first one is shown, and every camouflage
/// with textures is.
pub proof fn first_candidates_are_shown(
    c: Seq<CamoCandidateView>,
    catalog: CamoCatalog,
    n: int,
    i: int,
)
    requires
        0 <= i < n <= c.len(),
    ensures
        !is_seen(c, c[i].camo_name, i) ==> (scheme_of(c[i], catalog) matches Some(s) ==> schemes_of(
            c,
            catalog,
            n,
        ).contains(s)),
        is_seen(c, c[i].camo_name, i) ==> schemes_of(c, catalog, i + 1) == schemes_of(
            c,
            catalog,
            i,
        ),
    decreases n,
{
    let now = schemes_of(c, catalog, n);
    let before = schemes_of(c, catalog, n - 1);
    if !is_seen(c, c[i].camo_name, i) {
        if let Some(s) = scheme_of(c[i], catalog) {
            if i < n - 1 {
                first_candidates_are_shown(c, catalog, n - 1, i);
                let k = choose|k: int| 0 <= k < before.len() && before[k] == s;
                assert(now[k] == s);
            } else {
                assert(now[before.len() as int] == s);
            }
        }
    }
}

/// The universal camouflages are those exteriors whose name starts with `PCEC`; they have
/// no other name to fall back on.
pub proof fn universal_camouflages_are_told_by_their_name(
    params: Seq<ParamInfo>,
    n: int,
    i: int,
)
    requires
        0 <= i < n <= params.len(),
    ensures
        camouflage_of(params[i]) is Some && text::has_prefix(params[i].name@, "PCEC"@)
            ==> universal_candidates(params, n).contains(
            (CamoCandidateView {
                camo_name: camouflage_of(params[i])->0,
                ids_key: "IDS_"@ + text::uppercase(params[i].name@),
                fallback: None,
            }),
        ),
        !text::has_prefix(params[i].name@, "PCEC"@) || camouflage_of(params[i]) is None
            ==> universal_candidates(params, i + 1) == universal_candidates(params, i),
    decreases n,
{
    if camouflage_of(params[i]) is Some && text::has_prefix(params[i].name@, "PCEC"@) {
        let v = CamoCandidateView {
            camo_name: camouflage_of(params[i])->0,
            ids_key: "IDS_"@ + text::uppercase(params[i].name@),
            fallback: None,
        };
        let now = universal_candidates(params, n);
        let before = universal_candidates(params, n - 1);
        if i < n - 1 {
            universal_camouflages_are_told_by_their_name(params, n - 1, i);
            let k = choose|k: int| 0 <= k < before.len() && before[k] == v;
            assert(now[k] == v);
        } else {
            assert(now[before.len() as int] == v);
        }
    }
}

/// A label says the name of a scheme, whether it is tiled and whether it is universal.
pub proof fn labels_tell_schemes_apart(name: Seq<char>)
    ensures
        scheme_label(name, true, false) == name + " (tiled)"@,
        scheme_label(name, false, false) == name + " (mat_camo)"@,
        scheme_label(name, true, true) == name + " (universal/tiled)"@,
        scheme_label(name, false, true) == name + " (universal/mat_camo)"@,
{
    reveal_strlit(" (");
    reveal_strlit("universal/");
    reveal_strlit("");
    reveal_strlit("tiled");
    reveal_strlit("mat_camo");
    reveal_strlit(")");
    reveal_strlit(" (tiled)");
    reveal_strlit(" (mat_camo)");
    reveal_strlit(" (universal/tiled)");
    reveal_strlit(" (universal/mat_camo)");
    assert(scheme_label(name, true, false) =~= name + " (tiled)"@);
    assert(scheme_label(name, false, false) =~= name + " (mat_camo)"@);
    assert(scheme_label(name, true, true) =~= name + " (universal/tiled)"@);
    assert(scheme_label(name, false, true) =~= name + " (universal/mat_camo)"@);
}

/// A tiled camouflage has the colours of the scheme that it names.
pub proof fn tiled_camouflages_have_the_colours_they_name(
    entry: CamoEntry,
    catalog: CamoCatalog,
    name: String,
    i: int,
)
    requires
        entry.tiled,
        entry.color_scheme == Some(name),
        slots::slot_from(slots::slots(catalog.color_schemes@), name@, 0) == Some(i),
    ensures
        scheme_colors(entry, catalog) == Some(slots::slots(catalog.color_schemes@)[i].1),
{
}

} // verus!
