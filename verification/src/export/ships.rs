//! Ships: finding one by name, and its identity.
use vstd::prelude::*;

use crate::export::paths;
use crate::game_params::types;
use crate::game_params::types::ArmorPlate;
use crate::game_params::types::HitLocation;
use crate::game_params::types::Species;
use crate::models::assets_bin::PrototypeDatabase;
use crate::text;
use crate::text_laws;

verus! {

/// What `unidecode::unidecode` makes of a text.
pub uninterp spec fn ascii_folded(s: Seq<char>) -> Seq<char>;

/// Whether a text is plain ASCII.
pub open spec fn is_plain(s: Seq<char>) -> bool {
    forall|i: int| 0 <= i < s.len() ==> (#[trigger] s[i]) <= '\x7f'
}

/// `unidecode::unidecode`: an ASCII transliteration, named [`ascii_folded`]. It holds
/// only ASCII characters, and plain ASCII text stays as it is.
#[verifier::external_body]
fn fold_to_ascii(s: &str) -> (r: String)
    ensures
        r@ == ascii_folded(s@),
        is_plain(r@),
        is_plain(s@) ==> r@ == s@,
{
    unidecode::unidecode(s)
}

/// A name as searches see it: in ASCII and in lower case.
pub open spec fn normalised(s: Seq<char>) -> Seq<char> {
    text::lowercase(ascii_folded(s))
}

/// Writes a name as searches see it.
pub fn normalise(s: &str) -> (r: String)
    ensures
        r@ == normalised(s@),
{
    text::to_lowercase(fold_to_ascii(s).as_str())
}

// ---- Parameters -------------------------------------------------------------

/// What a vehicle says of itself.
#[derive(Debug)]
pub struct VehicleInfo {
    pub level: u32,
    pub model_path: Option<String>,
    /// Names of the exteriors that it can wear.
    pub permoflages: Vec<String>,
    /// The armour of the hull.
    pub armor: Option<Vec<ArmorPlate>>,
    pub hit_locations: Option<Vec<HitLocation>>,
}

/// A game parameter.
#[derive(Debug)]
pub struct ParamInfo {
    pub index: String,
    pub name: String,
    pub nation: String,
    pub species: Option<Species>,
    /// Present if the parameter is a vehicle.
    pub vehicle: Option<VehicleInfo>,
    /// Present if the parameter is an exterior: the camouflage that it names.
    pub exterior: Option<Option<String>>,
    /// The translated name.
    pub display_name: Option<String>,
}

/// The model of a parameter that is a vehicle.
pub open spec fn model_of(p: ParamInfo) -> Option<Seq<char>> {
    match p.vehicle {
        Some(v) => text::opt_text(v.model_path),
        None => None,
    }
}

/// Whether the path of the model of a parameter holds the given text.
pub open spec fn model_holds(p: ParamInfo, part: Seq<char>) -> bool {
    match model_of(p) {
        Some(path) => text::has_part(path, part),
        None => false,
    }
}

/// Index of the first parameter whose model path holds the given text, from `i` on.
pub open spec fn vehicle_from(params: Seq<ParamInfo>, part: Seq<char>, i: int) -> Option<int>
    decreases params.len() - i,
{
    if i < 0 || i >= params.len() {
        None
    } else if model_holds(params[i], part) {
        Some(i)
    } else {
        vehicle_from(params, part, i + 1)
    }
}

/// Index of the first parameter with the given index key, from `i` on.
pub open spec fn index_from(params: Seq<ParamInfo>, key: Seq<char>, i: int) -> Option<int>
    decreases params.len() - i,
{
    if i < 0 || i >= params.len() {
        None
    } else if params[i].index@ == key {
        Some(i)
    } else {
        index_from(params, key, i + 1)
    }
}

fn holds(p: &ParamInfo, part: &str) -> (r: bool)
    ensures
        r == model_holds(*p, part@),
{
    match &p.vehicle {
        Some(v) => match &v.model_path {
            Some(path) => text::contains(path.as_str(), part),
            None => false,
        },
        None => false,
    }
}

/// Finds the vehicle whose model path holds the name of a model directory.
pub fn find_vehicle(params: &Vec<ParamInfo>, model_dir: &str) -> (r: Option<usize>)
    ensures
        match r {
            Some(i) => vehicle_from(params@, model_dir@, 0) == Some(i as int) && i < params@.len(),
            None => vehicle_from(params@, model_dir@, 0) is None,
        },
{
    let mut i: usize = 0;
    while i < params.len()
        invariant
            i <= params.len(),
            vehicle_from(params@, model_dir@, i as int) == vehicle_from(params@, model_dir@, 0),
        decreases params.len() - i,
    {
        if holds(&params[i], model_dir) {
            return Some(i);
        }
        i += 1;
    }
    None
}

/// The index key of the ship with the given model directory.
pub fn find_ship_index(params: &Vec<ParamInfo>, model_dir: &str) -> (r: Option<String>)
    ensures
        text::opt_text(r) == match vehicle_from(params@, model_dir@, 0) {
            Some(i) => Some(params@[i].index@),
            None => None,
        },
{
    match find_vehicle(params, model_dir) {
        Some(i) => Some(text::copy(params[i].index.as_str())),
        None => None,
    }
}

fn find_index(params: &Vec<ParamInfo>, key: &str) -> (r: Option<usize>)
    ensures
        match r {
            Some(i) => index_from(params@, key@, 0) == Some(i as int) && i < params@.len(),
            None => index_from(params@, key@, 0) is None,
        },
{
    let mut i: usize = 0;
    while i < params.len()
        invariant
            i <= params.len(),
            index_from(params@, key@, i as int) == index_from(params@, key@, 0),
        decreases params.len() - i,
    {
        if text::same(params[i].index.as_str(), key) {
            return Some(i);
        }
        i += 1;
    }
    None
}

// ---- Identity ---------------------------------------------------------------

/// Identity of a ship.
#[derive(Debug, Clone)]
pub struct ShipInfo {
    /// Model directory.
    pub model_dir: String,
    /// Translated name.
    pub display_name: Option<String>,
    /// Index key; empty if not known.
    pub param_index: String,
    /// Nation; empty if not known.
    pub nation: String,
    /// Class; empty if not known.
    pub species: String,
    /// Tier; 0 if not known.
    pub tier: u32,
}

pub struct ShipInfoView {
    pub model_dir: Seq<char>,
    pub display_name: Option<Seq<char>>,
    pub param_index: Seq<char>,
    pub nation: Seq<char>,
    pub species: Seq<char>,
    pub tier: u32,
}

impl View for ShipInfo {
    type V = ShipInfoView;

    open spec fn view(&self) -> ShipInfoView {
        ShipInfoView {
            model_dir: self.model_dir@,
            display_name: text::opt_text(self.display_name),
            param_index: self.param_index@,
            nation: self.nation@,
            species: self.species@,
            tier: self.tier,
        }
    }
}

/// The name that ids of mounted components start with: the translated name, or the model
/// directory.
pub open spec fn stem_of(info: ShipInfoView) -> Seq<char> {
    match info.display_name {
        Some(name) => name,
        None => info.model_dir,
    }
}

impl ShipInfo {
    /// The name that ids of mounted components start with.
    pub fn stem(&self) -> (r: &str)
        ensures
            r@ == stem_of(self@),
    {
        match &self.display_name {
            Some(name) => name.as_str(),
            None => self.model_dir.as_str(),
        }
    }
}

/// The class of a parameter.
pub open spec fn species_of(p: ParamInfo) -> Seq<char> {
    match p.species {
        Some(s) => types::species_name(s),
        None => Seq::empty(),
    }
}

/// The tier of a parameter.
pub open spec fn tier_of(p: ParamInfo) -> u32 {
    match p.vehicle {
        Some(v) => v.level,
        None => 0,
    }
}

/// The identity of a ship with the given directory, names and parameter.
pub open spec fn identity(
    model_dir: Seq<char>,
    display_name: Option<Seq<char>>,
    param_index: Seq<char>,
    param: Option<ParamInfo>,
) -> ShipInfoView {
    ShipInfoView {
        model_dir,
        display_name,
        param_index,
        nation: match param {
            Some(p) => p.nation@,
            None => Seq::empty(),
        },
        species: match param {
            Some(p) => species_of(p),
            None => Seq::empty(),
        },
        tier: match param {
            Some(p) => tier_of(p),
            None => 0,
        },
    }
}

/// The parameter at an index, if there is one.
pub open spec fn param_at(params: Seq<ParamInfo>, i: Option<int>) -> Option<ParamInfo> {
    match i {
        Some(i) => Some(params[i]),
        None => None,
    }
}

/// Nation, class and tier of a parameter; empty and 0 if there is none.
pub fn ship_identity_from_param(param: Option<&ParamInfo>) -> (r: (String, String, u32))
    ensures
        match param {
            Some(p) => r.0@ == p.nation@ && r.1@ == species_of(*p) && r.2 == tier_of(*p),
            None => r.0@.len() == 0 && r.1@.len() == 0 && r.2 == 0,
        },
{
    match param {
        None => {
            (String::new(), String::new(), 0)
        },
        Some(p) => {
            let species = match p.species {
                Some(s) => text::copy(s.name()),
                None => String::new(),
            };
            let tier: u32 = match &p.vehicle {
                Some(v) => v.level,
                None => 0,
            };
            (text::copy(p.nation.as_str()), species, tier)
        },
    }
}

fn make_info(
    model_dir: &str,
    display_name: Option<String>,
    param_index: String,
    params: &Vec<ParamInfo>,
    at: Option<usize>,
) -> (r: ShipInfo)
    requires
        at matches Some(i) ==> i < params@.len(),
    ensures
        r@ == identity(
            model_dir@,
            text::opt_text(display_name),
            param_index@,
            match at {
                Some(i) => Some(params@[i as int]),
                None => None,
            },
        ),
{
    let (nation, species, tier) = match at {
        Some(i) => ship_identity_from_param(Some(&params[i])),
        None => ship_identity_from_param(None),
    };
    assert(at is None ==> nation@ =~= Seq::<char>::empty() && species@ =~= Seq::<char>::empty());
    ShipInfo { model_dir: text::copy(model_dir), display_name, param_index, nation, species, tier }
}

/// The directory that a model lies in, by name.
pub open spec fn dir_name(model_path: Seq<char>) -> Seq<char> {
    let dir = match text::split_last(model_path, '/') {
        Some((head, _)) => head,
        None => model_path,
    };
    text::after_last(dir, '/')
}

/// The name of the directory that a model lies in.
pub fn model_dir_name(model_path: &str) -> (r: String)
    ensures
        r@ == dir_name(model_path@),
{
    match text::rsplit_once(model_path, '/') {
        Some((head, _)) => text::tail_after(head.as_str(), '/'),
        None => text::tail_after(model_path, '/'),
    }
}

/// The identity of the ship with a model directory: its parameter is the first vehicle
/// whose model path holds the directory.
pub open spec fn identity_of_dir(params: Seq<ParamInfo>, model_dir: Seq<char>) -> ShipInfoView {
    match vehicle_from(params, model_dir, 0) {
        Some(i) => identity(
            model_dir,
            text::opt_text(params[i].display_name),
            params[i].index@,
            Some(params[i]),
        ),
        None => identity(model_dir, None, Seq::empty(), None),
    }
}

/// The identity of the ship with a model directory.
pub fn ship_of_dir(params: &Vec<ParamInfo>, model_dir: &str) -> (r: ShipInfo)
    ensures
        r@ == identity_of_dir(params@, model_dir@),
{
    match find_vehicle(params, model_dir) {
        Some(i) => make_info(
            model_dir,
            copy_name(&params[i].display_name),
            text::copy(params[i].index.as_str()),
            params,
            Some(i),
        ),
        None => {
            let none = String::new();
            assert(none@ =~= Seq::<char>::empty());
            make_info(model_dir, None, none, params, None)
        },
    }
}

fn copy_name(s: &Option<String>) -> (r: Option<String>)
    ensures
        text::opt_text(r) == text::opt_text(*s),
{
    match s {
        Some(t) => Some(text::copy(t.as_str())),
        None => None,
    }
}

// ---- Search -----------------------------------------------------------------

/// A ship that a search found.
#[derive(Debug)]
pub struct ShipMatch {
    pub display_name: String,
    pub param_index: String,
    pub model_dir: String,
}

pub struct ShipMatchView {
    pub display_name: Seq<char>,
    pub param_index: Seq<char>,
    pub model_dir: Seq<char>,
}

impl View for ShipMatch {
    type V = ShipMatchView;

    open spec fn view(&self) -> ShipMatchView {
        ShipMatchView {
            display_name: self.display_name@,
            param_index: self.param_index@,
            model_dir: self.model_dir@,
        }
    }
}

pub open spec fn match_views(s: Seq<ShipMatch>) -> Seq<ShipMatchView> {
    Seq::new(s.len(), |i: int| s[i]@)
}

/// Why no ship was found.
#[derive(Debug)]
pub enum FindShipError {
    NotFound { name: String },
    Ambiguous { name: String, matches: Vec<ShipMatch> },
}

pub enum FindShipFault {
    NotFound { name: Seq<char> },
    Ambiguous { name: Seq<char>, matches: Seq<ShipMatchView> },
}

impl View for FindShipError {
    type V = FindShipFault;

    open spec fn view(&self) -> FindShipFault {
        match self {
            FindShipError::NotFound { name } => FindShipFault::NotFound { name: name@ },
            FindShipError::Ambiguous { name, matches } => FindShipFault::Ambiguous {
                name: name@,
                matches: match_views(matches@),
            },
        }
    }
}

/// One line of the list of matches.
pub open spec fn match_line(m: ShipMatchView) -> Seq<char> {
    "  "@ + m.display_name + " ("@ + m.param_index + ") -> "@ + m.model_dir
}

/// The lines of the first `n` matches.
pub open spec fn match_lines(matches: Seq<ShipMatchView>) -> Seq<Seq<char>> {
    Seq::new(matches.len(), |i: int| match_line(matches[i]))
}

/// The message of a failed search.
pub open spec fn fault_message(e: FindShipFault) -> Seq<char> {
    match e {
        FindShipFault::NotFound { name } => "No ship found matching '"@ + name
            + "'. Try using the model directory name (e.g. 'JSB039_Yamato_1945')."@,
        FindShipFault::Ambiguous { name, matches } => "Multiple ships match '"@ + name + "':\n"@
            + text::joined(match_lines(matches), "\n"@)
            + "\nPlease refine your search or use the model directory name directly."@,
    }
}

impl FindShipError {
    /// The message of a failed search.
    pub fn message(&self) -> (r: String)
        ensures
            r@ == fault_message(self@),
    {
        match self {
            FindShipError::NotFound { name } => text::concat3(
                "No ship found matching '",
                name.as_str(),
                "'. Try using the model directory name (e.g. 'JSB039_Yamato_1945').",
            ),
            FindShipError::Ambiguous { name, matches } => {
                let mut lines: Vec<String> = Vec::new();
                let mut i: usize = 0;
                while i < matches.len()
                    invariant
                        i <= matches.len(),
                        lines@.len() == i,
                        forall|k: int|
                            0 <= k < i ==> (#[trigger] lines@[k])@ == match_line(matches@[k]@),
                    decreases matches.len() - i,
                {
                    let mut line = text::copy("  ");
                    line.append(matches[i].display_name.as_str());
                    line.append(" (");
                    line.append(matches[i].param_index.as_str());
                    line.append(") -> ");
                    line.append(matches[i].model_dir.as_str());
                    lines.push(line);
                    i += 1;
                }
                assert(text::texts(lines@) =~= match_lines(match_views(matches@)));
                assert(text::texts(lines@).skip(0) =~= text::texts(lines@));
                let mut out = text::concat3("Multiple ships match '", name.as_str(), "':\n");
                out.append(text::join_from(&lines, 0, "\n").as_str());
                out.append("\nPlease refine your search or use the model directory name directly.");
                out
            },
        }
    }
}

/// Whether a model directory of the given name holds a visual.
pub open spec fn is_model_dir(db: PrototypeDatabase, name: Seq<char>) -> bool {
    exists|i: int| 0 <= i < db.paths@.len() && paths::lies_in(#[trigger] db.paths@[i], ".visual"@, name)
}

fn has_model_dir(db: &PrototypeDatabase, name: &str) -> (r: bool)
    ensures
        r == is_model_dir(*db, name@),
{
    let needle = text::concat3("/", name, "/");
    let mut i: usize = 0;
    while i < db.paths.len()
        invariant
            i <= db.paths.len(),
            needle@ == "/"@ + name@ + "/"@,
            forall|k: int|
                0 <= k < i ==> !paths::lies_in(#[trigger] db.paths@[k], ".visual"@, name@),
        decreases db.paths.len() - i,
    {
        if text::ends_with(db.paths[i].name.as_str(), ".visual") && text::contains(
            db.paths[i].full_path.as_str(),
            needle.as_str(),
        ) {
            assert(paths::lies_in(db.paths@[i as int], ".visual"@, name@));
            return true;
        }
        i += 1;
    }
    false
}

/// The name that a parameter is shown by: the translated one or its index key.
pub open spec fn shown_name(p: ParamInfo) -> Seq<char> {
    match text::opt_text(p.display_name) {
        Some(n) => n,
        None => p.index@,
    }
}

fn show_name(p: &ParamInfo) -> (r: String)
    ensures
        r@ == shown_name(*p),
{
    match &p.display_name {
        Some(n) => text::copy(n.as_str()),
        None => text::copy(p.index.as_str()),
    }
}

/// The vehicles among the first `n` parameters whose shown name, as searches see it,
/// holds the needle.
pub open spec fn matched(
    params: Seq<ParamInfo>,
    shown: Seq<Seq<char>>,
    needle: Seq<char>,
    n: int,
) -> Seq<ShipMatchView>
    decreases n,
{
    if n <= 0 {
        Seq::empty()
    } else {
        let before = matched(params, shown, needle, n - 1);
        match model_of(params[n - 1]) {
            Some(path) => if text::has_part(shown[n - 1], needle) {
                before.push(
                    ShipMatchView {
                        display_name: shown_name(params[n - 1]),
                        param_index: params[n - 1].index@,
                        model_dir: dir_name(path),
                    },
                )
            } else {
                before
            },
            None => before,
        }
    }
}

/// The model of the parameter with an index key.
pub open spec fn indexed_model(params: Seq<ParamInfo>, key: Seq<char>) -> Option<(int, Seq<char>)> {
    match index_from(params, key, 0) {
        Some(i) => match model_of(params[i]) {
            Some(path) => Some((i, path)),
            None => None,
        },
        None => None,
    }
}

/// The identity of a match.
pub open spec fn identity_of_match(params: Seq<ParamInfo>, m: ShipMatchView) -> ShipInfoView {
    identity(
        m.model_dir,
        Some(m.display_name),
        m.param_index,
        param_at(params, index_from(params, m.param_index, 0)),
    )
}

/// Whether all matches have the model directory of the first.
pub open spec fn share_a_dir(matches: Seq<ShipMatchView>) -> bool {
    forall|i: int| 0 <= i < matches.len() ==> (#[trigger] matches[i]).model_dir == matches[0].model_dir
}

/// What a search gives: a model directory of that name, else the vehicle with that index
/// key, else the only vehicle whose shown name holds the needle, or the first if all
/// have one model directory.
pub open spec fn search_result(
    db: PrototypeDatabase,
    params: Seq<ParamInfo>,
    name: Seq<char>,
    shown: Seq<Seq<char>>,
    needle: Seq<char>,
) -> Result<ShipInfoView, FindShipFault> {
    if is_model_dir(db, name) {
        Ok(identity_of_dir(params, name))
    } else {
        match indexed_model(params, name) {
            Some((i, path)) => Ok(
                identity(
                    dir_name(path),
                    text::opt_text(params[i].display_name),
                    params[i].index@,
                    Some(params[i]),
                ),
            ),
            None => {
                let matches = matched(params, shown, needle, params.len() as int);
                if matches.len() == 0 {
                    Err(FindShipFault::NotFound { name })
                } else if share_a_dir(matches) {
                    Ok(identity_of_match(params, matches[0]))
                } else {
                    Err(FindShipFault::Ambiguous { name, matches })
                }
            },
        }
    }
}

fn collect_matches(params: &Vec<ParamInfo>, shown: &Vec<String>, needle: &str) -> (r: Vec<ShipMatch>)
    requires
        shown@.len() == params@.len(),
    ensures
        match_views(r@) == matched(
            params@,
            text::texts(shown@),
            needle@,
            params@.len() as int,
        ),
{
    let mut out: Vec<ShipMatch> = Vec::new();
    let mut i: usize = 0;
    let ghost t = text::texts(shown@);
    assert(match_views(out@) =~= matched(params@, t, needle@, 0));
    while i < params.len()
        invariant
            i <= params.len(),
            shown@.len() == params@.len(),
            t == text::texts(shown@),
            match_views(out@) == matched(params@, t, needle@, i as int),
        decreases params.len() - i,
    {
        let ghost before = out@;
        if let Some(v) = &params[i].vehicle {
            if let Some(path) = &v.model_path {
                if text::contains(shown[i].as_str(), needle) {
                    let m = ShipMatch {
                        display_name: show_name(&params[i]),
                        param_index: text::copy(params[i].index.as_str()),
                        model_dir: model_dir_name(path.as_str()),
                    };
                    let ghost view = m@;
                    out.push(m);
                    assert(match_views(out@) =~= match_views(before).push(view));
                }
            }
        }
        i += 1;
    }
    out
}

fn shares_a_dir(matches: &Vec<ShipMatch>) -> (r: bool)
    requires
        matches@.len() > 0,
    ensures
        r == share_a_dir(match_views(matches@)),
{
    let ghost views = match_views(matches@);
    let mut i: usize = 0;
    while i < matches.len()
        invariant
            i <= matches.len(),
            matches@.len() > 0,
            views == match_views(matches@),
            forall|k: int|
                0 <= k < i ==> (#[trigger] views[k]).model_dir == views[0].model_dir,
        decreases matches.len() - i,
    {
        if !text::same(matches[i].model_dir.as_str(), matches[0].model_dir.as_str()) {
            assert(views[i as int].model_dir != views[0].model_dir);
            return false;
        }
        i += 1;
    }
    true
}

/// Searches for a ship, given the needle and the shown names of all parameters as
/// searches see them.
pub fn search_ship(
    db: &PrototypeDatabase,
    params: &Vec<ParamInfo>,
    name: &str,
    shown: &Vec<String>,
    needle: &str,
) -> (r: Result<ShipInfo, FindShipError>)
    requires
        shown@.len() == params@.len(),
    ensures
        match r {
            Ok(info) => search_result(
                *db,
                params@,
                name@,
                text::texts(shown@),
                needle@,
            ) == Ok::<ShipInfoView, FindShipFault>(info@),
            Err(e) => search_result(*db, params@, name@, text::texts(shown@), needle@) == Err::<
                ShipInfoView,
                FindShipFault,
            >(e@),
        },
{
    if has_model_dir(db, name) {
        return Ok(ship_of_dir(params, name));
    }
    if let Some(i) = find_index(params, name) {
        if let Some(v) = &params[i].vehicle {
            if let Some(path) = &v.model_path {
                let dir = model_dir_name(path.as_str());
                return Ok(
                    make_info(
                        dir.as_str(),
                        copy_name(&params[i].display_name),
                        text::copy(params[i].index.as_str()),
                        params,
                        Some(i),
                    ),
                );
            }
        }
    }
    let matches = collect_matches(params, shown, needle);
    let ghost views = match_views(matches@);
    if matches.len() == 0 {
        return Err(FindShipError::NotFound { name: text::copy(name) });
    }
    if shares_a_dir(&matches) {
        let m = &matches[0];
        assert(views[0] == m@);
        let at = find_index(params, m.param_index.as_str());
        return Ok(
            make_info(
                m.model_dir.as_str(),
                Some(text::copy(m.display_name.as_str())),
                text::copy(m.param_index.as_str()),
                params,
                at,
            ),
        );
    }
    Err(FindShipError::Ambiguous { name: text::copy(name), matches })
}

/// The shown names of parameters, as searches see them.
pub open spec fn normalised_names(params: Seq<ParamInfo>) -> Seq<Seq<char>> {
    Seq::new(params.len(), |i: int| normalised(shown_name(params[i])))
}

/// Finds a ship by model directory, index key or name. Names match in any case and
/// without regard to accents.
pub fn find_ship(db: &PrototypeDatabase, params: &Vec<ParamInfo>, name: &str) -> (r: Result<
    ShipInfo,
    FindShipError,
>)
    ensures
        match r {
            Ok(info) => search_result(
                *db,
                params@,
                name@,
                normalised_names(params@),
                normalised(name@),
            ) == Ok::<ShipInfoView, FindShipFault>(info@),
            Err(e) => search_result(
                *db,
                params@,
                name@,
                normalised_names(params@),
                normalised(name@),
            ) == Err::<ShipInfoView, FindShipFault>(e@),
        },
{
    let mut shown: Vec<String> = Vec::new();
    let mut i: usize = 0;
    while i < params.len()
        invariant
            i <= params.len(),
            shown@.len() == i,
            forall|k: int|
                0 <= k < i ==> (#[trigger] shown@[k])@ == normalised(shown_name(params@[k])),
        decreases params.len() - i,
    {
        shown.push(normalise(show_name(&params[i]).as_str()));
        i += 1;
    }
    assert(text::texts(shown@) =~= normalised_names(params@));
    search_ship(db, params, name, &shown, normalise(name).as_str())
}

/// The identity of the ship that a model path belongs to.
pub fn ship_of_model(params: &Vec<ParamInfo>, model_path: &str) -> (r: ShipInfo)
    ensures
        r@ == identity_of_dir(params@, dir_name(model_path@)),
{
    let dir = model_dir_name(model_path);
    ship_of_dir(params, dir.as_str())
}

/// A search that succeeds names a ship of the catalogue: its model directory is the name
/// itself, or that of a vehicle with a model.
pub proof fn found_ships_have_a_model(
    db: PrototypeDatabase,
    params: Seq<ParamInfo>,
    name: Seq<char>,
    shown: Seq<Seq<char>>,
    needle: Seq<char>,
)
    requires
        search_result(db, params, name, shown, needle) is Ok,
    ensures
        ({
            let dir = search_result(db, params, name, shown, needle)->Ok_0.model_dir;
            (is_model_dir(db, name) && dir == name) || exists|i: int|
                0 <= i < params.len() && model_of(#[trigger] params[i]) is Some && dir == dir_name(
                    model_of(params[i])->0,
                )
        }),
{
    if !is_model_dir(db, name) {
        match indexed_model(params, name) {
            Some((i, path)) => {
                index_from_is_exact(params, name, 0);
                assert(model_of(params[i]) == Some(path));
            },
            None => {
                matches_have_a_model(params, shown, needle, params.len() as int, 0);
            },
        }
    }
}

proof fn index_from_is_exact(params: Seq<ParamInfo>, key: Seq<char>, i: int)
    requires
        0 <= i,
    ensures
        index_from(params, key, i) matches Some(k) ==> i <= k < params.len() && params[k].index@
            == key,
    decreases params.len() - i,
{
    if i < params.len() && params[i].index@ != key {
        index_from_is_exact(params, key, i + 1);
    }
}

proof fn matches_have_a_model(
    params: Seq<ParamInfo>,
    shown: Seq<Seq<char>>,
    needle: Seq<char>,
    n: int,
    k: int,
)
    requires
        n <= params.len(),
        0 <= k < matched(params, shown, needle, n).len(),
    ensures
        exists|i: int|
            0 <= i < n && model_of(#[trigger] params[i]) is Some && matched(
                params,
                shown,
                needle,
                n,
            )[k].model_dir == dir_name(model_of(params[i])->0),
    decreases n,
{
    let before = matched(params, shown, needle, n - 1);
    if k < before.len() {
        matches_have_a_model(params, shown, needle, n - 1, k);
        let i = choose|i: int|
            0 <= i < n - 1 && model_of(#[trigger] params[i]) is Some && before[k].model_dir
                == dir_name(model_of(params[i])->0);
        assert(model_of(params[i]) is Some);
    } else {
        assert(model_of(params[n - 1]) is Some);
    }
}

/// Of several entries with one index the first one counts.
pub proof fn first_indices_count(params: Seq<ParamInfo>, key: Seq<char>, i: int, k: int)
    requires
        0 <= i <= k < params.len(),
        params[k].index@ == key,
        forall|j: int| i <= j < k ==> (#[trigger] params[j]).index@ != key,
    ensures
        index_from(params, key, i) == Some(k),
    decreases k - i,
{
    if i < k {
        first_indices_count(params, key, i + 1, k);
    }
}

/// Of several vehicles whose model path holds a text the first one counts.
pub proof fn first_vehicles_count(params: Seq<ParamInfo>, part: Seq<char>, i: int, k: int)
    requires
        0 <= i <= k < params.len(),
        model_holds(params[k], part),
        forall|j: int| i <= j < k ==> !model_holds(#[trigger] params[j], part),
    ensures
        vehicle_from(params, part, i) == Some(k),
    decreases k - i,
{
    if i < k {
        first_vehicles_count(params, part, i + 1, k);
    }
}

/// The directory of a model is the one that its file stands in.
pub proof fn directories_are_those_of_the_file(head: Seq<char>, dir: Seq<char>, file: Seq<char>)
    requires
        !dir.contains('/'),
        !file.contains('/'),
    ensures
        dir_name(head + "/"@ + dir + "/"@ + file) == dir,
        dir_name(dir + "/"@ + file) == dir,
{
    reveal_strlit("/");
    let long = head + "/"@ + dir;
    assert(long + "/"@ + file =~= long.push('/') + file);
    text_laws::texts_split_at_the_last_character(long, file, '/');
    assert(long =~= head.push('/') + dir);
    text_laws::texts_split_at_the_last_character(head, dir, '/');
    assert(dir + "/"@ + file =~= dir.push('/') + file);
    text_laws::texts_split_at_the_last_character(dir, file, '/');
}

/// The matches of a search are exactly the entries with a model whose shown name holds
/// what is looked for, in order.
#[verifier::rlimit(50)]
pub proof fn matches_are_those_that_hold_the_needle(
    params: Seq<ParamInfo>,
    shown: Seq<Seq<char>>,
    needle: Seq<char>,
    n: int,
    i: int,
)
    requires
        0 <= i < n <= params.len(),
        shown.len() == params.len(),
    ensures
        model_of(params[i]) is Some && text::has_part(shown[i], needle) ==> matched(
            params,
            shown,
            needle,
            n,
        ).contains(
            (ShipMatchView {
                display_name: shown_name(params[i]),
                param_index: params[i].index@,
                model_dir: dir_name(model_of(params[i])->0),
            }),
        ),
        (forall|j: int|
            0 <= j < n ==> model_of(#[trigger] params[j]) is None || !text::has_part(
                shown[j],
                needle,
            )) ==> matched(params, shown, needle, n).len() == 0,
        matched(params, shown, needle, n).len() <= n,
    decreases n,
{
    let now = matched(params, shown, needle, n);
    let before = matched(params, shown, needle, n - 1);
    if n > 1 {
        let k = if i < n - 1 {
            i
        } else {
            0
        };
        matches_are_those_that_hold_the_needle(params, shown, needle, n - 1, k);
    } else {
        assert(before.len() == 0);
    }
    if model_of(params[i]) is Some && text::has_part(shown[i], needle) {
        let v = ShipMatchView {
            display_name: shown_name(params[i]),
            param_index: params[i].index@,
            model_dir: dir_name(model_of(params[i])->0),
        };
        if i < n - 1 {
            let k = choose|k: int| 0 <= k < before.len() && before[k] == v;
            assert(now[k] == v);
        } else {
            assert(now[before.len() as int] == v);
        }
    }
}

/// A search goes by directory first, then by index, then by name. A directory is taken as
/// it stands; an index leads to the model of its own entry; names lead to a ship only if
/// all that match share one directory.
pub proof fn searches_go_by_directory_then_index_then_name(
    db: PrototypeDatabase,
    params: Seq<ParamInfo>,
    name: Seq<char>,
    shown: Seq<Seq<char>>,
    needle: Seq<char>,
    i: int,
)
    requires
        0 <= i < params.len(),
    ensures
        is_model_dir(db, name) ==> search_result(db, params, name, shown, needle) is Ok
            && search_result(db, params, name, shown, needle)->Ok_0.model_dir == name,
        !is_model_dir(db, name) && index_from(params, name, 0) == Some(i) && model_of(params[i])
            is Some ==> {
            let r = search_result(db, params, name, shown, needle);
            &&& r is Ok
            &&& r->Ok_0.model_dir == dir_name(model_of(params[i])->0)
            &&& r->Ok_0.param_index == params[i].index@
            &&& r->Ok_0.display_name == text::opt_text(params[i].display_name)
            &&& r->Ok_0.nation == params[i].nation@
            &&& r->Ok_0.tier == tier_of(params[i])
            &&& r->Ok_0.species == species_of(params[i])
        },
        !is_model_dir(db, name) && index_from(params, name, 0) is None ==> {
            let r = search_result(db, params, name, shown, needle);
            let m = matched(params, shown, needle, params.len() as int);
            &&& m.len() == 0 <==> r == Err::<ShipInfoView, FindShipFault>(
                FindShipFault::NotFound { name },
            )
            &&& r is Ok <==> m.len() > 0 && share_a_dir(m)
            &&& r is Ok ==> r->Ok_0.model_dir == m[0].model_dir && r->Ok_0.param_index
                == m[0].param_index && r->Ok_0.display_name == Some(m[0].display_name)
        },
{
}

/// The identity of a ship is that of its vehicle: index key, nation, class and tier come
/// from one parameter, and a directory that no vehicle holds has none of them.
pub proof fn identities_are_those_of_the_vehicle(params: Seq<ParamInfo>, model_dir: Seq<char>, i: int)
    requires
        0 <= i < params.len(),
        model_holds(params[i], model_dir),
        forall|j: int| 0 <= j < i ==> !model_holds(#[trigger] params[j], model_dir),
    ensures
        ({
            let s = identity_of_dir(params, model_dir);
            &&& s.model_dir == model_dir
            &&& s.param_index == params[i].index@
            &&& s.nation == params[i].nation@
            &&& s.display_name == text::opt_text(params[i].display_name)
            &&& (params[i].vehicle matches Some(v) ==> s.tier == v.level)
            &&& (params[i].species matches Some(c) ==> s.species == types::species_name(c))
            &&& stem_of(s) == (match params[i].display_name {
                Some(name) => name@,
                None => model_dir,
            })
        }),
{
    first_vehicles_count(params, model_dir, 0, i);
}

/// A ship that was found by its name has the directory and the name of the match, and
/// nation and class of the first parameter with the index key of the match.
pub proof fn matches_are_identified_by_their_index(
    params: Seq<ParamInfo>,
    m: ShipMatchView,
    i: int,
)
    requires
        0 <= i < params.len(),
        params[i].index@ == m.param_index,
        forall|j: int| 0 <= j < i ==> (#[trigger] params[j]).index@ != m.param_index,
    ensures
        ({
            let s = identity_of_match(params, m);
            &&& s.model_dir == m.model_dir
            &&& s.display_name == Some(m.display_name)
            &&& s.param_index == params[i].index@
            &&& s.nation == params[i].nation@
            &&& (params[i].vehicle matches Some(v) ==> s.tier == v.level)
            &&& (params[i].species matches Some(c) ==> s.species == types::species_name(c))
        }),
{
    first_indices_count(params, m.param_index, 0, i);
}

} // verus!
