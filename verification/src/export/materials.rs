//! Materials of a visual: which material each render set uses and which textures it
//! binds.
use vstd::prelude::*;

use crate::export::sub_models::OwnedSubModel;
use crate::models::assets_bin;
use crate::models::assets_bin::PrototypeDatabase;
use crate::models::material::MaterialProperty;
use crate::models::material::PropertyType;
use crate::models::material::PropertyValue;
use crate::models::visual::RenderSet;
use crate::models::visual::VisualPrototype;
use crate::slots;
use crate::slots::NamedSlot;
use crate::text;
use crate::text_laws;

verus! {

/// Suffixes of the mip levels of a texture. `.dd0` is the highest resolution.
pub const TEXTURE_MIP_SUFFIXES: [&'static str; 4] = [".dd0", ".dd1", ".dd2", ".dds"];

/// Suffixes of the channels of a texture, longer ones before their own endings.
pub const TEXTURE_CHANNEL_SUFFIXES: [&'static str; 10] = [
    "_normal",
    "_nbmask",
    "_emissive",
    "_mr",
    "_mg",
    "_ao",
    "_od",
    "_n",
    "_a",
    "_e",
];

/// Index of the first suffix of the list, from `i` on, that a text ends in.
pub open spec fn suffix_from(s: Seq<char>, list: Seq<&'static str>, i: int) -> Option<int>
    decreases list.len() - i,
{
    if i < 0 || i >= list.len() {
        None
    } else if text::has_suffix(s, list[i]@) {
        Some(i)
    } else {
        suffix_from(s, list, i + 1)
    }
}

/// A text split at the first suffix of the list that it ends in. The second part is
/// empty if it ends in none.
pub open spec fn split_suffix(s: Seq<char>, list: Seq<&'static str>) -> (Seq<char>, Seq<char>) {
    match suffix_from(s, list, 0) {
        Some(i) => (s.take(s.len() - list[i]@.len()), list[i]@),
        None => (s, Seq::empty()),
    }
}

fn cut_suffix(s: &str, list: &[&'static str]) -> (r: (String, String))
    ensures
        (r.0@, r.1@) == split_suffix(s@, list@),
{
    let mut i: usize = 0;
    while i < list.len()
        invariant
            i <= list.len(),
            suffix_from(s@, list@, i as int) == suffix_from(s@, list@, 0),
        decreases list.len() - i,
    {
        if let Some(t) = text::strip_suffix(s, list[i]) {
            return (t, text::copy(list[i]));
        }
        i += 1;
    }
    (text::copy(s), String::new())
}

/// The stem and the channel suffix in the path of a texture.
pub open spec fn stem_and_channel(vfs_path: Seq<char>) -> (Seq<char>, Seq<char>) {
    split_suffix(
        split_suffix(text::after_last(vfs_path, '/'), TEXTURE_MIP_SUFFIXES@).0,
        TEXTURE_CHANNEL_SUFFIXES@,
    )
}

/// Splits the path of a texture into the stem of its material and its channel suffix,
/// which is empty if it has none. The directory and the mip suffix are dropped.
pub fn derive_texture_stem_and_channel(vfs_path: &str) -> (r: (String, String))
    ensures
        (r.0@, r.1@) == stem_and_channel(vfs_path@),
{
    let leaf = text::tail_after(vfs_path, '/');
    let stem = cut_suffix(leaf.as_str(), &TEXTURE_MIP_SUFFIXES);
    cut_suffix(stem.0.as_str(), &TEXTURE_CHANNEL_SUFFIXES)
}

/// The two parts of a split text make up the text.
proof fn split_suffixes_rejoin(s: Seq<char>, list: Seq<&'static str>)
    ensures
        split_suffix(s, list).0 + split_suffix(s, list).1 == s,
{
    suffix_from_is_exact(s, list, 0);
    if let Some(i) = suffix_from(s, list, 0) {
        assert(s.take(s.len() - list[i]@.len()) + list[i]@ =~= s);
    } else {
        assert(s + Seq::<char>::empty() =~= s);
    }
}

proof fn suffix_from_is_exact(s: Seq<char>, list: Seq<&'static str>, i: int)
    requires
        0 <= i,
    ensures
        suffix_from(s, list, i) matches Some(k) ==> i <= k < list.len() && text::has_suffix(
            s,
            list[k]@,
        ),
    decreases list.len() - i,
{
    if i < list.len() && !text::has_suffix(s, list[i]@) {
        suffix_from_is_exact(s, list, i + 1);
    }
}

/// Stem, channel and mip suffix make up the file name of a texture.
pub proof fn texture_names_rejoin(vfs_path: Seq<char>)
    ensures
        ({
            let leaf = text::after_last(vfs_path, '/');
            let (stem, channel) = stem_and_channel(vfs_path);
            stem + channel + split_suffix(leaf, TEXTURE_MIP_SUFFIXES@).1 == leaf
        }),
{
    let leaf = text::after_last(vfs_path, '/');
    split_suffixes_rejoin(leaf, TEXTURE_MIP_SUFFIXES@);
    split_suffixes_rejoin(split_suffix(leaf, TEXTURE_MIP_SUFFIXES@).0, TEXTURE_CHANNEL_SUFFIXES@);
}

/// No channel suffix hides a later one: none is the ending of one behind it.
pub proof fn channel_suffixes_do_not_hide_each_other(i: int, j: int)
    requires
        0 <= i < j < TEXTURE_CHANNEL_SUFFIXES@.len(),
    ensures
        !text::has_suffix(TEXTURE_CHANNEL_SUFFIXES@[j]@, TEXTURE_CHANNEL_SUFFIXES@[i]@),
{
    reveal_strlit("_normal");
    reveal_strlit("_nbmask");
    reveal_strlit("_emissive");
    reveal_strlit("_mr");
    reveal_strlit("_mg");
    reveal_strlit("_ao");
    reveal_strlit("_od");
    reveal_strlit("_n");
    reveal_strlit("_a");
    reveal_strlit("_e");
    let list = TEXTURE_CHANNEL_SUFFIXES@;
    assert(list[0]@.last() == 'l' && list[1]@.last() == 'k' && list[2]@.last() == 'e');
    assert(list[3]@.last() == 'r' && list[4]@.last() == 'g' && list[5]@.last() == 'o');
    assert(list[6]@.last() == 'd' && list[7]@.last() == 'n' && list[8]@.last() == 'a');
    assert(list[9]@.last() == 'e');
    assert(list[2]@.len() == 9 && list[9]@.len() == 2);
    if text::has_suffix(list[j]@, list[i]@) {
        let a = list[i]@;
        let b = list[j]@;
        assert(a.len() > 0);
        assert(b.last() == a.last());
    }
}

// ---- Material entries -------------------------------------------------------

/// A texture that a material binds.
#[derive(Debug)]
pub struct TextureRef {
    pub stem: String,
    pub channel: String,
    pub vfs_path: String,
    /// Path id, `0x` and sixteen hexadecimal digits.
    pub hash: String,
}

pub struct TextureRefView {
    pub stem: Seq<char>,
    pub channel: Seq<char>,
    pub vfs_path: Seq<char>,
    pub hash: Seq<char>,
}

impl View for TextureRef {
    type V = TextureRefView;

    open spec fn view(&self) -> TextureRefView {
        TextureRefView {
            stem: self.stem@,
            channel: self.channel@,
            vfs_path: self.vfs_path@,
            hash: self.hash@,
        }
    }
}

/// What a material binds, by property name.
#[derive(Debug)]
pub struct MaterialBinding {
    /// `0x` and eight hexadecimal digits.
    pub shader_id: String,
    pub textures: Vec<NamedSlot<TextureRef>>,
    pub floats: Vec<NamedSlot<u32>>,
}

pub struct MaterialBindingView {
    pub shader_id: Seq<char>,
    pub textures: Seq<(Seq<char>, TextureRefView)>,
    pub floats: Seq<(Seq<char>, u32)>,
}

impl View for MaterialBinding {
    type V = MaterialBindingView;

    open spec fn view(&self) -> MaterialBindingView {
        MaterialBindingView {
            shader_id: self.shader_id@,
            textures: slots::slots(self.textures@),
            floats: slots::slots(self.floats@),
        }
    }
}

/// The material of one render set.
#[derive(Debug)]
pub struct MaterialEntry {
    pub material_identifier: String,
    pub sub_model: String,
    pub mfm_stem: String,
    pub mfm_path: String,
    pub render_set: String,
    pub skinned: bool,
    /// Nothing if the material cannot be parsed.
    pub binding: Option<MaterialBinding>,
}

pub struct MaterialEntryView {
    pub material_identifier: Seq<char>,
    pub sub_model: Seq<char>,
    pub mfm_stem: Seq<char>,
    pub mfm_path: Seq<char>,
    pub render_set: Seq<char>,
    pub skinned: bool,
    pub binding: Option<MaterialBindingView>,
}

impl View for MaterialEntry {
    type V = MaterialEntryView;

    open spec fn view(&self) -> MaterialEntryView {
        MaterialEntryView {
            material_identifier: self.material_identifier@,
            sub_model: self.sub_model@,
            mfm_stem: self.mfm_stem@,
            mfm_path: self.mfm_path@,
            render_set: self.render_set@,
            skinned: self.skinned,
            binding: match self.binding {
                Some(b) => Some(b@),
                None => None,
            },
        }
    }
}

pub open spec fn entry_views(s: Seq<MaterialEntry>) -> Seq<MaterialEntryView> {
    Seq::new(s.len(), |i: int| s[i]@)
}

/// A label and a number in upper-case hexadecimal with at least eight digits.
pub open spec fn labelled(label: Seq<char>, n: u32) -> Seq<char> {
    label + text::zero_padded(text::hex(n as int), 8)
}

/// `0x` and a number in lower-case hexadecimal with at least `width` digits.
pub open spec fn prefixed(n: u64, width: int) -> Seq<char> {
    "0x"@ + text::zero_padded(text::low_hex(n as int), width)
}

fn write_prefixed(n: u64, width: usize) -> (r: String)
    ensures
        r@ == prefixed(n, width as int),
{
    text::concat("0x", text::pad_zeros(text::to_low_hex(n).as_str(), width).as_str())
}

/// A string of the database, or a label with its id.
pub open spec fn name_of(db: PrototypeDatabase, id: u32, label: Seq<char>) -> Seq<char> {
    match db.string(id) {
        Some(s) => s,
        None => labelled(label, id),
    }
}

fn find_name(db: &PrototypeDatabase, id: u32, label: &str) -> (r: String)
    ensures
        r@ == name_of(*db, id, label@),
{
    match db.get_string_by_id(id) {
        Some(s) => s,
        None => text::concat(label, text::pad_zeros(text::to_hex(id as u64).as_str(), 8).as_str()),
    }
}

/// The name of a material file without its suffix.
pub open spec fn mfm_stem(name: Seq<char>) -> Seq<char> {
    if text::has_suffix(name, ".mfm"@) {
        name.take(name.len() - ".mfm"@.len())
    } else {
        name
    }
}

fn cut_mfm(name: &str) -> (r: String)
    ensures
        r@ == mfm_stem(name@),
{
    match text::strip_suffix(name, ".mfm") {
        Some(t) => t,
        None => text::copy(name),
    }
}

/// The name of a property, or its hash.
pub open spec fn slot_name(prop: MaterialProperty) -> Seq<char> {
    match text::opt_text(prop.name) {
        Some(n) => n,
        None => prefixed(prop.name_hash as u64, 8),
    }
}

fn find_slot_name(prop: &MaterialProperty) -> (r: String)
    ensures
        r@ == slot_name(*prop),
{
    match &prop.name {
        Some(n) => text::copy(n.as_str()),
        None => write_prefixed(prop.name_hash as u64, 8),
    }
}

/// The texture that a property binds: its id is not 0 and leads to a path.
pub open spec fn texture_bound(db: PrototypeDatabase, prop: MaterialProperty) -> Option<
    TextureRefView,
> {
    match (prop.property_type, prop.value) {
        (PropertyType::Texture, Some(PropertyValue::Texture(h))) => match db.path_index(h) {
            Some(i) => if h == 0 {
                None
            } else {
                let path = db.paths@[i].full_path@;
                Some(
                    TextureRefView {
                        stem: stem_and_channel(path).0,
                        channel: stem_and_channel(path).1,
                        vfs_path: path,
                        hash: prefixed(h, 16),
                    },
                )
            },
            None => None,
        },
        _ => None,
    }
}

/// The number that a property binds.
pub open spec fn float_bound(prop: MaterialProperty) -> Option<u32> {
    match (prop.property_type, prop.value) {
        (PropertyType::FloatA, Some(PropertyValue::Float(v))) => Some(v),
        (PropertyType::FloatB, Some(PropertyValue::Float(v))) => Some(v),
        _ => None,
    }
}

fn find_texture(db: &PrototypeDatabase, prop: &MaterialProperty) -> (r: Option<TextureRef>)
    ensures
        match r {
            Some(t) => texture_bound(*db, *prop) == Some(t@),
            None => texture_bound(*db, *prop) is None,
        },
{
    if prop.property_type != PropertyType::Texture {
        return None;
    }
    let hash: u64 = match prop.value {
        Some(PropertyValue::Texture(h)) => h,
        _ => {
            return None;
        },
    };
    if hash == 0 {
        return None;
    }
    match db.find_path(hash) {
        Some(i) => {
            let (stem, channel) = derive_texture_stem_and_channel(db.paths[i].full_path.as_str());
            Some(
                TextureRef {
                    stem,
                    channel,
                    vfs_path: text::copy(db.paths[i].full_path.as_str()),
                    hash: write_prefixed(hash, 16),
                },
            )
        },
        None => None,
    }
}

fn find_float(prop: &MaterialProperty) -> (r: Option<u32>)
    ensures
        r == float_bound(*prop),
{
    match (prop.property_type, prop.value) {
        (PropertyType::FloatA, Some(PropertyValue::Float(v))) => Some(v),
        (PropertyType::FloatB, Some(PropertyValue::Float(v))) => Some(v),
        _ => None,
    }
}

/// The textures that the first `n` properties bind.
pub open spec fn textures_bound(db: PrototypeDatabase, p: Seq<MaterialProperty>, n: int) -> Seq<
    (Seq<char>, TextureRefView),
>
    decreases n,
{
    if n <= 0 {
        Seq::empty()
    } else {
        let before = textures_bound(db, p, n - 1);
        match texture_bound(db, p[n - 1]) {
            Some(t) => slots::bound(before, slot_name(p[n - 1]), t),
            None => before,
        }
    }
}

/// The numbers that the first `n` properties bind.
pub open spec fn floats_bound(p: Seq<MaterialProperty>, n: int) -> Seq<(Seq<char>, u32)>
    decreases n,
{
    if n <= 0 {
        Seq::empty()
    } else {
        let before = floats_bound(p, n - 1);
        match float_bound(p[n - 1]) {
            Some(v) => slots::bound(before, slot_name(p[n - 1]), v),
            None => before,
        }
    }
}

/// What the material with the given id binds.
pub open spec fn binding_of(db: PrototypeDatabase, mfm_path_id: u64) -> Option<
    MaterialBindingView,
> {
    match db.material_record(mfm_path_id) {
        Some(i) => {
            let mat = db.materials@[i]->0;
            Some(
                MaterialBindingView {
                    shader_id: prefixed(mat.shader_id as u64, 8),
                    textures: textures_bound(db, mat.properties@, mat.properties@.len() as int),
                    floats: floats_bound(mat.properties@, mat.properties@.len() as int),
                },
            )
        },
        None => None,
    }
}

fn find_binding(db: &PrototypeDatabase, mfm_path_id: u64) -> (r: Option<MaterialBinding>)
    ensures
        match r {
            Some(b) => binding_of(*db, mfm_path_id) == Some(b@),
            None => binding_of(*db, mfm_path_id) is None,
        },
{
    match assets_bin::parse_mfm_from_db(db, mfm_path_id) {
        None => None,
        Some(mat) => {
            let mut textures: Vec<NamedSlot<TextureRef>> = Vec::new();
            let mut floats: Vec<NamedSlot<u32>> = Vec::new();
            let mut i: usize = 0;
            assert(slots::slots(textures@) =~= textures_bound(*db, mat.properties@, 0));
            assert(slots::slots(floats@) =~= floats_bound(mat.properties@, 0));
            while i < mat.properties.len()
                invariant
                    i <= mat.properties.len(),
                    slots::slots(textures@) == textures_bound(*db, mat.properties@, i as int),
                    slots::slots(floats@) == floats_bound(mat.properties@, i as int),
                decreases mat.properties.len() - i,
            {
                let prop = &mat.properties[i];
                if let Some(t) = find_texture(db, prop) {
                    slots::bind(&mut textures, find_slot_name(prop), t);
                }
                if let Some(v) = find_float(prop) {
                    slots::bind(&mut floats, find_slot_name(prop), v);
                }
                i += 1;
            }
            Some(
                MaterialBinding {
                    shader_id: write_prefixed(mat.shader_id as u64, 8),
                    textures,
                    floats,
                },
            )
        },
    }
}

/// The entry of one render set, if it names a material whose path is known.
pub open spec fn material_entry(
    db: PrototypeDatabase,
    rs: RenderSet,
    sub_model: Seq<char>,
) -> Option<MaterialEntryView> {
    match db.path_index(rs.material_mfm_path_id) {
        Some(i) => if rs.material_mfm_path_id == 0 {
            None
        } else {
            Some(
                MaterialEntryView {
                    material_identifier: name_of(db, rs.material_name_id, "material_0x"@),
                    sub_model,
                    mfm_stem: mfm_stem(db.paths@[i].name@),
                    mfm_path: db.paths@[i].full_path@,
                    render_set: name_of(db, rs.name_id, "rs_0x"@),
                    skinned: rs.skinned,
                    binding: binding_of(db, rs.material_mfm_path_id),
                },
            )
        },
        None => None,
    }
}

/// The entries of the first `n` render sets.
pub open spec fn material_entries(
    db: PrototypeDatabase,
    sets: Seq<RenderSet>,
    sub_model: Seq<char>,
    n: int,
) -> Seq<MaterialEntryView>
    decreases n,
{
    if n <= 0 {
        Seq::empty()
    } else {
        let before = material_entries(db, sets, sub_model, n - 1);
        match material_entry(db, sets[n - 1], sub_model) {
            Some(e) => before.push(e),
            None => before,
        }
    }
}

/// Lists the materials of a visual: one entry for each render set that names a material
/// whose path is known.
pub fn build_material_entries_for_visual(
    vp: &VisualPrototype,
    db: &PrototypeDatabase,
    sub_model: &str,
) -> (r: Vec<MaterialEntry>)
    ensures
        entry_views(r@) == material_entries(
            *db,
            vp.render_sets@,
            sub_model@,
            vp.render_sets@.len() as int,
        ),
{
    let mut out: Vec<MaterialEntry> = Vec::new();
    let mut i: usize = 0;
    assert(entry_views(out@) =~= material_entries(*db, vp.render_sets@, sub_model@, 0));
    while i < vp.render_sets.len()
        invariant
            i <= vp.render_sets.len(),
            entry_views(out@) == material_entries(*db, vp.render_sets@, sub_model@, i as int),
        decreases vp.render_sets.len() - i,
    {
        let rs = &vp.render_sets[i];
        let ghost before = out@;
        if rs.material_mfm_path_id != 0 {
            if let Some(k) = db.find_path(rs.material_mfm_path_id) {
                let entry = MaterialEntry {
                    material_identifier: find_name(db, rs.material_name_id, "material_0x"),
                    sub_model: text::copy(sub_model),
                    mfm_stem: cut_mfm(db.paths[k].name.as_str()),
                    mfm_path: text::copy(db.paths[k].full_path.as_str()),
                    render_set: find_name(db, rs.name_id, "rs_0x"),
                    skinned: rs.skinned,
                    binding: find_binding(db, rs.material_mfm_path_id),
                };
                let ghost view = entry@;
                out.push(entry);
                assert(entry_views(out@) =~= entry_views(before).push(view));
            }
        }
        i += 1;
    }
    out
}

/// The entries of the first `n` parts of a ship.
pub open spec fn ship_entries(db: PrototypeDatabase, parts: Seq<OwnedSubModel>, n: int) -> Seq<
    MaterialEntryView,
>
    decreases n,
{
    if n <= 0 {
        Seq::empty()
    } else {
        let sets = parts[n - 1].visual.render_sets@;
        ship_entries(db, parts, n - 1) + material_entries(
            db,
            sets,
            parts[n - 1].name@,
            sets.len() as int,
        )
    }
}

/// Lists the materials of all parts of a ship, one part after the other.
pub fn list_materials(parts: &Vec<OwnedSubModel>, db: &PrototypeDatabase) -> (r: Vec<MaterialEntry>)
    ensures
        entry_views(r@) == ship_entries(*db, parts@, parts@.len() as int),
{
    let mut out: Vec<MaterialEntry> = Vec::new();
    let mut i: usize = 0;
    assert(entry_views(out@) =~= ship_entries(*db, parts@, 0));
    while i < parts.len()
        invariant
            i <= parts.len(),
            entry_views(out@) == ship_entries(*db, parts@, i as int),
        decreases parts.len() - i,
    {
        let ghost before = out@;
        let mut more = build_material_entries_for_visual(
            &parts[i].visual,
            db,
            parts[i].name.as_str(),
        );
        let ghost added = more@;
        out.append(&mut more);
        assert(entry_views(out@) =~= entry_views(before) + entry_views(added));
        i += 1;
    }
    out
}

// ---- Material files ---------------------------------------------------------

/// A material file: the name without suffix, the path, and the id.
#[derive(Debug)]
pub struct MfmInfo {
    pub stem: String,
    pub full_path: String,
    pub material_mfm_path_id: u64,
}

pub struct MfmInfoView {
    pub stem: Seq<char>,
    pub full_path: Seq<char>,
    pub material_mfm_path_id: u64,
}

impl View for MfmInfo {
    type V = MfmInfoView;

    open spec fn view(&self) -> MfmInfoView {
        MfmInfoView {
            stem: self.stem@,
            full_path: self.full_path@,
            material_mfm_path_id: self.material_mfm_path_id,
        }
    }
}

pub open spec fn info_views(s: Seq<MfmInfo>) -> Seq<MfmInfoView> {
    Seq::new(s.len(), |i: int| s[i]@)
}

/// The material file with the given id.
pub open spec fn mfm_info(db: PrototypeDatabase, id: u64) -> Option<MfmInfoView> {
    match db.path_index(id) {
        Some(i) => if id == 0 {
            None
        } else {
            Some(
                MfmInfoView {
                    stem: mfm_stem(db.paths@[i].name@),
                    full_path: db.paths@[i].full_path@,
                    material_mfm_path_id: id,
                },
            )
        },
        None => None,
    }
}

pub open spec fn has_stem(infos: Seq<MfmInfoView>, stem: Seq<char>) -> bool {
    exists|i: int| 0 <= i < infos.len() && (#[trigger] infos[i]).stem == stem
}

/// A list of material files with one more, unless it holds the stem already.
pub open spec fn with_info(infos: Seq<MfmInfoView>, info: MfmInfoView) -> Seq<MfmInfoView> {
    if has_stem(infos, info.stem) {
        infos
    } else {
        infos.push(info)
    }
}

/// The material files of the first `n` render sets, each stem once.
pub open spec fn mfm_infos(db: PrototypeDatabase, sets: Seq<RenderSet>, n: int) -> Seq<MfmInfoView>
    decreases n,
{
    if n <= 0 {
        Seq::empty()
    } else {
        let before = mfm_infos(db, sets, n - 1);
        match mfm_info(db, sets[n - 1].material_mfm_path_id) {
            Some(info) => with_info(before, info),
            None => before,
        }
    }
}

/// The first file of each stem, of the first `n` of a list.
pub open spec fn first_of_each(infos: Seq<MfmInfoView>, n: int) -> Seq<MfmInfoView>
    decreases n,
{
    if n <= 0 {
        Seq::empty()
    } else {
        with_info(first_of_each(infos, n - 1), infos[n - 1])
    }
}

fn add_info(list: &mut Vec<MfmInfo>, info: MfmInfo)
    ensures
        info_views(final(list)@) == with_info(info_views(old(list)@), info@),
{
    let ghost before = info_views(list@);
    let mut i: usize = 0;
    while i < list.len()
        invariant
            i <= list.len(),
            list@ == old(list)@,
            before == info_views(list@),
            forall|k: int| 0 <= k < i ==> (#[trigger] before[k]).stem != info.stem@,
        decreases list.len() - i,
    {
        if text::same(list[i].stem.as_str(), info.stem.as_str()) {
            assert(before[i as int].stem == info.stem@);
            return;
        }
        i += 1;
    }
    list.push(info);
    assert(info_views(list@) =~= before.push(info@));
}

/// Lists the material files that a visual names, each stem once.
pub fn collect_mfm_info(visual: &VisualPrototype, db: &PrototypeDatabase) -> (r: Vec<MfmInfo>)
    ensures
        info_views(r@) == mfm_infos(*db, visual.render_sets@, visual.render_sets@.len() as int),
{
    let mut out: Vec<MfmInfo> = Vec::new();
    let mut i: usize = 0;
    assert(info_views(out@) =~= mfm_infos(*db, visual.render_sets@, 0));
    while i < visual.render_sets.len()
        invariant
            i <= visual.render_sets.len(),
            info_views(out@) == mfm_infos(*db, visual.render_sets@, i as int),
        decreases visual.render_sets.len() - i,
    {
        let id: u64 = visual.render_sets[i].material_mfm_path_id;
        if id != 0 {
            if let Some(k) = db.find_path(id) {
                let info = MfmInfo {
                    stem: cut_mfm(db.paths[k].name.as_str()),
                    full_path: text::copy(db.paths[k].full_path.as_str()),
                    material_mfm_path_id: id,
                };
                add_info(&mut out, info);
            }
        }
        i += 1;
    }
    out
}

/// The stems of some material files.
pub open spec fn stems_of(infos: Seq<MfmInfoView>) -> Seq<Seq<char>> {
    Seq::new(infos.len(), |i: int| infos[i].stem)
}

/// The stems of the material files that a visual names, each once.
pub open spec fn visual_stems(db: PrototypeDatabase, visual: VisualPrototype) -> Seq<Seq<char>> {
    stems_of(mfm_infos(db, visual.render_sets@, visual.render_sets@.len() as int))
}

/// Lists the stems of the material files that a visual names, each once.
pub fn list_stems(visual: &VisualPrototype, db: &PrototypeDatabase) -> (r: Vec<String>)
    ensures
        text::texts(r@) == visual_stems(*db, *visual),
{
    let infos = collect_mfm_info(visual, db);
    let mut out: Vec<String> = Vec::new();
    let mut i: usize = 0;
    while i < infos.len()
        invariant
            i <= infos.len(),
            out@.len() == i,
            forall|k: int| 0 <= k < i ==> (#[trigger] out@[k])@ == infos@[k].stem@,
        decreases infos.len() - i,
    {
        out.push(text::copy(infos[i].stem.as_str()));
        i += 1;
    }
    assert(text::texts(out@) =~= stems_of(info_views(infos@)));
    out
}

/// Keeps the first material file of each stem.
pub fn unique_infos(infos: Vec<MfmInfo>) -> (r: Vec<MfmInfo>)
    ensures
        info_views(r@) == first_of_each(info_views(infos@), infos@.len() as int),
{
    let mut out: Vec<MfmInfo> = Vec::new();
    let mut i: usize = 0;
    assert(info_views(out@) =~= first_of_each(info_views(infos@), 0));
    while i < infos.len()
        invariant
            i <= infos.len(),
            info_views(out@) == first_of_each(info_views(infos@), i as int),
        decreases infos.len() - i,
    {
        let info = MfmInfo {
            stem: text::copy(infos[i].stem.as_str()),
            full_path: text::copy(infos[i].full_path.as_str()),
            material_mfm_path_id: infos[i].material_mfm_path_id,
        };
        assert(info@ == info_views(infos@)[i as int]);
        add_info(&mut out, info);
        i += 1;
    }
    out
}

/// Whether no two material files have the same stem.
pub open spec fn has_distinct_stems(s: Seq<MfmInfoView>) -> bool {
    forall|i: int, j: int| 0 <= i < j < s.len() ==> (#[trigger] s[i]).stem != (#[trigger] s[j]).stem
}

/// No two material files of a visual have the same stem.
pub proof fn mfm_stems_are_distinct(db: PrototypeDatabase, sets: Seq<RenderSet>, n: int)
    requires
        n <= sets.len(),
    ensures
        has_distinct_stems(mfm_infos(db, sets, n)),
    decreases n,
{
    if n > 0 {
        mfm_stems_are_distinct(db, sets, n - 1);
        let before = mfm_infos(db, sets, n - 1);
        assert(forall|k: int| 0 <= k < before.len() ==> has_stem(before, (#[trigger] before[k]).stem));
    }
}

/// No two textures of a material are bound to the same name, and no two numbers.
pub proof fn bound_slots_are_distinct(db: PrototypeDatabase, p: Seq<MaterialProperty>, n: int)
    requires
        n <= p.len(),
    ensures
        slots::has_distinct_names(textures_bound(db, p, n)),
        slots::has_distinct_names(floats_bound(p, n)),
    decreases n,
{
    if n > 0 {
        bound_slots_are_distinct(db, p, n - 1);
        if let Some(t) = texture_bound(db, p[n - 1]) {
            slots::bound_names_are_distinct(textures_bound(db, p, n - 1), slot_name(p[n - 1]), t);
        }
        if let Some(v) = float_bound(p[n - 1]) {
            slots::bound_names_are_distinct(floats_bound(p, n - 1), slot_name(p[n - 1]), v);
        }
    }
}

// ---- What materials say -----------------------------------------------------

/// Whether a text is the suffix of a channel.
pub open spec fn is_channel(c: Seq<char>) -> bool {
    ||| c == "_normal"@
    ||| c == "_nbmask"@
    ||| c == "_emissive"@
    ||| c == "_mr"@
    ||| c == "_mg"@
    ||| c == "_ao"@
    ||| c == "_od"@
    ||| c == "_n"@
    ||| c == "_a"@
    ||| c == "_e"@
}

/// Whether a text is the ending of a mip level file.
pub open spec fn is_mip(m: Seq<char>) -> bool {
    ||| m == ".dd0"@
    ||| m == ".dd1"@
    ||| m == ".dd2"@
    ||| m == ".dds"@
}

/// A texture of a material is named after the material, with its channel and its mip level
/// behind it, whatever directory it stands in.
pub proof fn texture_names_tell_stem_and_channel(
    dir: Seq<char>,
    stem: Seq<char>,
    c: Seq<char>,
    m: Seq<char>,
)
    requires
        !stem.contains('/'),
        is_channel(c),
        is_mip(m),
    ensures
        stem_and_channel(dir + "/"@ + stem + c + m) == (stem, c),
{
    reveal_strlit("/");
    let leaf = stem + c + m;
    channels_are_cut_off(stem, c);
    mips_are_cut_off(stem + c, m);
    assert(!leaf.contains('/')) by {
        if leaf.contains('/') {
            let i = choose|i: int| 0 <= i < leaf.len() && leaf[i] == '/';
            if i < stem.len() {
                assert(stem[i] == '/');
            } else if i < stem.len() + c.len() {
                assert(c[i - stem.len()] == '/');
            } else {
                assert(m[i - stem.len() - c.len()] == '/');
            }
        }
    }
    assert(dir + "/"@ + stem + c + m =~= dir.push('/') + leaf);
    text_laws::texts_split_at_the_last_character(dir, leaf, '/');
}

proof fn mip_endings()
    ensures
        TEXTURE_MIP_SUFFIXES@[0]@ == ".dd0"@,
        TEXTURE_MIP_SUFFIXES@[0]@.len() == 4,
        TEXTURE_MIP_SUFFIXES@[0]@.last() == '0',
        !TEXTURE_MIP_SUFFIXES@[0]@.contains('/'),
        TEXTURE_MIP_SUFFIXES@[1]@ == ".dd1"@,
        TEXTURE_MIP_SUFFIXES@[1]@.len() == 4,
        TEXTURE_MIP_SUFFIXES@[1]@.last() == '1',
        !TEXTURE_MIP_SUFFIXES@[1]@.contains('/'),
        TEXTURE_MIP_SUFFIXES@[2]@ == ".dd2"@,
        TEXTURE_MIP_SUFFIXES@[2]@.len() == 4,
        TEXTURE_MIP_SUFFIXES@[2]@.last() == '2',
        !TEXTURE_MIP_SUFFIXES@[2]@.contains('/'),
        TEXTURE_MIP_SUFFIXES@[3]@ == ".dds"@,
        TEXTURE_MIP_SUFFIXES@[3]@.len() == 4,
        TEXTURE_MIP_SUFFIXES@[3]@.last() == 's',
        !TEXTURE_MIP_SUFFIXES@[3]@.contains('/'),
{
    assert(".dd0"@.len() == 4 && ".dd0"@.last() == '0' && !".dd0"@.contains('/')) by {
        reveal_strlit(".dd0");
    }
    assert(".dd1"@.len() == 4 && ".dd1"@.last() == '1' && !".dd1"@.contains('/')) by {
        reveal_strlit(".dd1");
    }
    assert(".dd2"@.len() == 4 && ".dd2"@.last() == '2' && !".dd2"@.contains('/')) by {
        reveal_strlit(".dd2");
    }
    assert(".dds"@.len() == 4 && ".dds"@.last() == 's' && !".dds"@.contains('/')) by {
        reveal_strlit(".dds");
    }
}

#[verifier::rlimit(50)]
proof fn channel_endings()
    ensures
        TEXTURE_CHANNEL_SUFFIXES@[0]@ == "_normal"@,
        TEXTURE_CHANNEL_SUFFIXES@[0]@.len() == 7,
        TEXTURE_CHANNEL_SUFFIXES@[0]@.last() == 'l',
        !TEXTURE_CHANNEL_SUFFIXES@[0]@.contains('/'),
        TEXTURE_CHANNEL_SUFFIXES@[1]@ == "_nbmask"@,
        TEXTURE_CHANNEL_SUFFIXES@[1]@.len() == 7,
        TEXTURE_CHANNEL_SUFFIXES@[1]@.last() == 'k',
        !TEXTURE_CHANNEL_SUFFIXES@[1]@.contains('/'),
        TEXTURE_CHANNEL_SUFFIXES@[2]@ == "_emissive"@,
        TEXTURE_CHANNEL_SUFFIXES@[2]@.len() == 9,
        TEXTURE_CHANNEL_SUFFIXES@[2]@.last() == 'e',
        !TEXTURE_CHANNEL_SUFFIXES@[2]@.contains('/'),
        TEXTURE_CHANNEL_SUFFIXES@[3]@ == "_mr"@,
        TEXTURE_CHANNEL_SUFFIXES@[3]@.len() == 3,
        TEXTURE_CHANNEL_SUFFIXES@[3]@.last() == 'r',
        !TEXTURE_CHANNEL_SUFFIXES@[3]@.contains('/'),
        TEXTURE_CHANNEL_SUFFIXES@[4]@ == "_mg"@,
        TEXTURE_CHANNEL_SUFFIXES@[4]@.len() == 3,
        TEXTURE_CHANNEL_SUFFIXES@[4]@.last() == 'g',
        !TEXTURE_CHANNEL_SUFFIXES@[4]@.contains('/'),
        TEXTURE_CHANNEL_SUFFIXES@[5]@ == "_ao"@,
        TEXTURE_CHANNEL_SUFFIXES@[5]@.len() == 3,
        TEXTURE_CHANNEL_SUFFIXES@[5]@.last() == 'o',
        !TEXTURE_CHANNEL_SUFFIXES@[5]@.contains('/'),
        TEXTURE_CHANNEL_SUFFIXES@[6]@ == "_od"@,
        TEXTURE_CHANNEL_SUFFIXES@[6]@.len() == 3,
        TEXTURE_CHANNEL_SUFFIXES@[6]@.last() == 'd',
        !TEXTURE_CHANNEL_SUFFIXES@[6]@.contains('/'),
        TEXTURE_CHANNEL_SUFFIXES@[7]@ == "_n"@,
        TEXTURE_CHANNEL_SUFFIXES@[7]@.len() == 2,
        TEXTURE_CHANNEL_SUFFIXES@[7]@.last() == 'n',
        !TEXTURE_CHANNEL_SUFFIXES@[7]@.contains('/'),
        TEXTURE_CHANNEL_SUFFIXES@[8]@ == "_a"@,
        TEXTURE_CHANNEL_SUFFIXES@[8]@.len() == 2,
        TEXTURE_CHANNEL_SUFFIXES@[8]@.last() == 'a',
        !TEXTURE_CHANNEL_SUFFIXES@[8]@.contains('/'),
        TEXTURE_CHANNEL_SUFFIXES@[9]@ == "_e"@,
        TEXTURE_CHANNEL_SUFFIXES@[9]@.len() == 2,
        TEXTURE_CHANNEL_SUFFIXES@[9]@.last() == 'e',
        !TEXTURE_CHANNEL_SUFFIXES@[9]@.contains('/'),
        TEXTURE_CHANNEL_SUFFIXES@[2]@[7] == 'v',
        TEXTURE_CHANNEL_SUFFIXES@[9]@[0] == '_',
{
    assert("_normal"@.len() == 7 && "_normal"@.last() == 'l' && !"_normal"@.contains('/')) by {
        reveal_strlit("_normal");
    }
    assert("_nbmask"@.len() == 7 && "_nbmask"@.last() == 'k' && !"_nbmask"@.contains('/')) by {
        reveal_strlit("_nbmask");
    }
    assert("_emissive"@.len() == 9 && "_emissive"@.last() == 'e' && !"_emissive"@.contains('/') && "_emissive"@[7] == 'v') by {
        reveal_strlit("_emissive");
    }
    assert("_mr"@.len() == 3 && "_mr"@.last() == 'r' && !"_mr"@.contains('/')) by {
        reveal_strlit("_mr");
    }
    assert("_mg"@.len() == 3 && "_mg"@.last() == 'g' && !"_mg"@.contains('/')) by {
        reveal_strlit("_mg");
    }
    assert("_ao"@.len() == 3 && "_ao"@.last() == 'o' && !"_ao"@.contains('/')) by {
        reveal_strlit("_ao");
    }
    assert("_od"@.len() == 3 && "_od"@.last() == 'd' && !"_od"@.contains('/')) by {
        reveal_strlit("_od");
    }
    assert("_n"@.len() == 2 && "_n"@.last() == 'n' && !"_n"@.contains('/')) by {
        reveal_strlit("_n");
    }
    assert("_a"@.len() == 2 && "_a"@.last() == 'a' && !"_a"@.contains('/')) by {
        reveal_strlit("_a");
    }
    assert("_e"@.len() == 2 && "_e"@.last() == 'e' && !"_e"@.contains('/') && "_e"@[0] == '_') by {
        reveal_strlit("_e");
    }
}

proof fn mips_are_cut_off(s: Seq<char>, m: Seq<char>)
    requires
        is_mip(m),
    ensures
        split_suffix(s + m, TEXTURE_MIP_SUFFIXES@).0 == s,
        !m.contains('/'),
{
    mip_endings();
    let list = TEXTURE_MIP_SUFFIXES@;
    if m == ".dd0"@ {
        suffixes_are_cut_off(s, list, 0);
    } else if m == ".dd1"@ {
        endings_differ(s, m, list[0]@);
        next_suffixes_count(s + m, list, 0);
        suffixes_are_cut_off(s, list, 1);
    } else if m == ".dd2"@ {
        endings_differ(s, m, list[0]@);
        next_suffixes_count(s + m, list, 0);
        endings_differ(s, m, list[1]@);
        next_suffixes_count(s + m, list, 1);
        suffixes_are_cut_off(s, list, 2);
    } else if m == ".dds"@ {
        endings_differ(s, m, list[0]@);
        next_suffixes_count(s + m, list, 0);
        endings_differ(s, m, list[1]@);
        next_suffixes_count(s + m, list, 1);
        endings_differ(s, m, list[2]@);
        next_suffixes_count(s + m, list, 2);
        suffixes_are_cut_off(s, list, 3);
    }
}

#[verifier::rlimit(40)]
proof fn channels_are_cut_off(stem: Seq<char>, c: Seq<char>)
    requires
        is_channel(c),
    ensures
        split_suffix(stem + c, TEXTURE_CHANNEL_SUFFIXES@) == (stem, c),
        !c.contains('/'),
{
    channel_endings();
    let list = TEXTURE_CHANNEL_SUFFIXES@;
    if c == "_normal"@ {
        suffixes_are_cut_off(stem, list, 0);
    } else if c == "_nbmask"@ {
        endings_differ(stem, c, list[0]@);
        next_suffixes_count(stem + c, list, 0);
        suffixes_are_cut_off(stem, list, 1);
    } else if c == "_emissive"@ {
        endings_differ(stem, c, list[0]@);
        next_suffixes_count(stem + c, list, 0);
        endings_differ(stem, c, list[1]@);
        next_suffixes_count(stem + c, list, 1);
        suffixes_are_cut_off(stem, list, 2);
    } else if c == "_mr"@ {
        endings_differ(stem, c, list[0]@);
        next_suffixes_count(stem + c, list, 0);
        endings_differ(stem, c, list[1]@);
        next_suffixes_count(stem + c, list, 1);
        endings_differ(stem, c, list[2]@);
        next_suffixes_count(stem + c, list, 2);
        suffixes_are_cut_off(stem, list, 3);
    } else if c == "_mg"@ {
        endings_differ(stem, c, list[0]@);
        next_suffixes_count(stem + c, list, 0);
        endings_differ(stem, c, list[1]@);
        next_suffixes_count(stem + c, list, 1);
        endings_differ(stem, c, list[2]@);
        next_suffixes_count(stem + c, list, 2);
        endings_differ(stem, c, list[3]@);
        next_suffixes_count(stem + c, list, 3);
        suffixes_are_cut_off(stem, list, 4);
    } else if c == "_ao"@ {
        endings_differ(stem, c, list[0]@);
        next_suffixes_count(stem + c, list, 0);
        endings_differ(stem, c, list[1]@);
        next_suffixes_count(stem + c, list, 1);
        endings_differ(stem, c, list[2]@);
        next_suffixes_count(stem + c, list, 2);
        endings_differ(stem, c, list[3]@);
        next_suffixes_count(stem + c, list, 3);
        endings_differ(stem, c, list[4]@);
        next_suffixes_count(stem + c, list, 4);
        suffixes_are_cut_off(stem, list, 5);
    } else if c == "_od"@ {
        endings_differ(stem, c, list[0]@);
        next_suffixes_count(stem + c, list, 0);
        endings_differ(stem, c, list[1]@);
        next_suffixes_count(stem + c, list, 1);
        endings_differ(stem, c, list[2]@);
        next_suffixes_count(stem + c, list, 2);
        endings_differ(stem, c, list[3]@);
        next_suffixes_count(stem + c, list, 3);
        endings_differ(stem, c, list[4]@);
        next_suffixes_count(stem + c, list, 4);
        endings_differ(stem, c, list[5]@);
        next_suffixes_count(stem + c, list, 5);
        suffixes_are_cut_off(stem, list, 6);
    } else if c == "_n"@ {
        endings_differ(stem, c, list[0]@);
        next_suffixes_count(stem + c, list, 0);
        endings_differ(stem, c, list[1]@);
        next_suffixes_count(stem + c, list, 1);
        endings_differ(stem, c, list[2]@);
        next_suffixes_count(stem + c, list, 2);
        endings_differ(stem, c, list[3]@);
        next_suffixes_count(stem + c, list, 3);
        endings_differ(stem, c, list[4]@);
        next_suffixes_count(stem + c, list, 4);
        endings_differ(stem, c, list[5]@);
        next_suffixes_count(stem + c, list, 5);
        endings_differ(stem, c, list[6]@);
        next_suffixes_count(stem + c, list, 6);
        suffixes_are_cut_off(stem, list, 7);
    } else if c == "_a"@ {
        endings_differ(stem, c, list[0]@);
        next_suffixes_count(stem + c, list, 0);
        endings_differ(stem, c, list[1]@);
        next_suffixes_count(stem + c, list, 1);
        endings_differ(stem, c, list[2]@);
        next_suffixes_count(stem + c, list, 2);
        endings_differ(stem, c, list[3]@);
        next_suffixes_count(stem + c, list, 3);
        endings_differ(stem, c, list[4]@);
        next_suffixes_count(stem + c, list, 4);
        endings_differ(stem, c, list[5]@);
        next_suffixes_count(stem + c, list, 5);
        endings_differ(stem, c, list[6]@);
        next_suffixes_count(stem + c, list, 6);
        endings_differ(stem, c, list[7]@);
        next_suffixes_count(stem + c, list, 7);
        suffixes_are_cut_off(stem, list, 8);
    } else if c == "_e"@ {
        endings_differ(stem, c, list[0]@);
        next_suffixes_count(stem + c, list, 0);
        endings_differ(stem, c, list[1]@);
        next_suffixes_count(stem + c, list, 1);
        shorter_endings_differ(stem, c, list[2]@);
        next_suffixes_count(stem + c, list, 2);
        endings_differ(stem, c, list[3]@);
        next_suffixes_count(stem + c, list, 3);
        endings_differ(stem, c, list[4]@);
        next_suffixes_count(stem + c, list, 4);
        endings_differ(stem, c, list[5]@);
        next_suffixes_count(stem + c, list, 5);
        endings_differ(stem, c, list[6]@);
        next_suffixes_count(stem + c, list, 6);
        endings_differ(stem, c, list[7]@);
        next_suffixes_count(stem + c, list, 7);
        endings_differ(stem, c, list[8]@);
        next_suffixes_count(stem + c, list, 8);
        suffixes_are_cut_off(stem, list, 9);
    }
}

proof fn next_suffixes_count(s: Seq<char>, list: Seq<&'static str>, i: int)
    requires
        0 <= i < list.len(),
        !text::has_suffix(s, list[i]@),
        i > 0 ==> suffix_from(s, list, 0) == suffix_from(s, list, i),
    ensures
        suffix_from(s, list, 0) == suffix_from(s, list, i + 1),
{
}

proof fn suffixes_are_cut_off(s: Seq<char>, list: Seq<&'static str>, i: int)
    requires
        0 <= i < list.len(),
        suffix_from(s + list[i]@, list, 0) == suffix_from(s + list[i]@, list, i),
    ensures
        split_suffix(s + list[i]@, list) == (s, list[i]@),
{
    let t = list[i]@;
    text_laws::prefixes_are_continued(s, t);
    assert((s + t).take((s + t).len() - t.len()) =~= s);
}

proof fn shorter_endings_differ(s: Seq<char>, m: Seq<char>, t: Seq<char>)
    requires
        m.len() == 2,
        t.len() == 9,
        m[0] != t[7],
    ensures
        !text::has_suffix(s + m, t),
{
    if text::has_suffix(s + m, t) {
        let l = s + m;
        assert(l.subrange(l.len() - t.len(), l.len() as int)[7] == l[l.len() - 2]);
    }
}

proof fn endings_differ(s: Seq<char>, m: Seq<char>, t: Seq<char>)
    requires
        m.len() > 0,
        t.len() > 0,
        m.last() != t.last(),
    ensures
        !text::has_suffix(s + m, t),
{
    if text::has_suffix(s + m, t) {
        let l = s + m;
        assert(l.subrange(l.len() - t.len(), l.len() as int)[t.len() - 1] == l.last());
    }
}

/// An entry tells the name of its material and that of its render set, each by its own id,
/// and the file that its material stands in.
pub proof fn entries_tell_their_names(
    db: PrototypeDatabase,
    rs: RenderSet,
    sub_model: Seq<char>,
    i: int,
    material: Seq<char>,
    set: Seq<char>,
)
    requires
        rs.material_mfm_path_id != 0,
        db.path_index(rs.material_mfm_path_id) == Some(i),
        db.string(rs.material_name_id) == Some(material),
        db.string(rs.name_id) == Some(set),
    ensures
        material_entry(db, rs, sub_model) matches Some(e) && {
            &&& e.material_identifier == material
            &&& e.render_set == set
            &&& e.sub_model == sub_model
            &&& e.mfm_path == db.paths@[i].full_path@
            &&& e.mfm_stem == mfm_stem(db.paths@[i].name@)
            &&& e.skinned == rs.skinned
        },
{
}

/// The stem of a material file is its name without the ending.
pub proof fn material_stems_have_no_ending(stem: Seq<char>)
    ensures
        mfm_stem(stem + ".mfm"@) == stem,
{
    text_laws::prefixes_are_continued(stem, ".mfm"@);
    assert((stem + ".mfm"@).take((stem + ".mfm"@).len() - ".mfm"@.len()) =~= stem);
}

/// Every render set with a material has an entry, in order, and no other has one.
#[verifier::rlimit(50)]
pub proof fn render_sets_have_their_entries(
    db: PrototypeDatabase,
    sets: Seq<RenderSet>,
    sub_model: Seq<char>,
    n: int,
    i: int,
)
    requires
        0 <= i < n <= sets.len(),
    ensures
        match material_entry(db, sets[i], sub_model) {
            Some(e) => {
                &&& material_entries(db, sets, sub_model, i).len() < material_entries(
                    db,
                    sets,
                    sub_model,
                    n,
                ).len()
                &&& material_entries(db, sets, sub_model, n)[material_entries(
                    db,
                    sets,
                    sub_model,
                    i,
                ).len() as int] == e
            },
            None => material_entries(db, sets, sub_model, i + 1) == material_entries(
                db,
                sets,
                sub_model,
                i,
            ),
        },
    decreases n,
{
    if i < n - 1 {
        render_sets_have_their_entries(db, sets, sub_model, n - 1, i);
    }
}

/// Of several properties of one name the last one that binds a texture counts; likewise for
/// numbers.
#[verifier::rlimit(50)]
pub proof fn last_properties_are_bound(
    db: PrototypeDatabase,
    p: Seq<MaterialProperty>,
    n: int,
    k: int,
)
    requires
        0 <= k < n <= p.len(),
        forall|j: int| k < j < n ==> slot_name(#[trigger] p[j]) != slot_name(p[k]),
    ensures
        texture_bound(db, p[k]) matches Some(t) ==> (slots::slot_from(
            textures_bound(db, p, n),
            slot_name(p[k]),
            0,
        ) matches Some(i) && 0 <= i < textures_bound(db, p, n).len() && textures_bound(db, p, n)[i]
            == (slot_name(p[k]), t)),
        float_bound(p[k]) matches Some(v) ==> (slots::slot_from(
            floats_bound(p, n),
            slot_name(p[k]),
            0,
        ) matches Some(i) && 0 <= i < floats_bound(p, n).len() && floats_bound(p, n)[i] == (
            slot_name(p[k]),
            v,
        )),
    decreases n,
{
    if k < n - 1 {
        last_properties_are_bound(db, p, n - 1, k);
        assert(slot_name(p[n - 1]) != slot_name(p[k]));
        if texture_bound(db, p[k]) is Some && texture_bound(db, p[n - 1]) is Some {
            slots::other_bindings_keep_slots(
                textures_bound(db, p, n - 1),
                slot_name(p[n - 1]),
                texture_bound(db, p[n - 1])->0,
                slot_name(p[k]),
            );
        }
        if float_bound(p[k]) is Some && float_bound(p[n - 1]) is Some {
            slots::other_bindings_keep_slots(
                floats_bound(p, n - 1),
                slot_name(p[n - 1]),
                float_bound(p[n - 1])->0,
                slot_name(p[k]),
            );
        }
    } else {
        if let Some(t) = texture_bound(db, p[k]) {
            slots::bindings_are_found(textures_bound(db, p, n - 1), slot_name(p[k]), t);
        }
        if let Some(v) = float_bound(p[k]) {
            slots::bindings_are_found(floats_bound(p, n - 1), slot_name(p[k]), v);
        }
    }
}

/// Every material of a visual is listed by its stem, and where several share a stem the
/// first one is.
pub proof fn materials_are_listed_by_their_stems(
    db: PrototypeDatabase,
    sets: Seq<RenderSet>,
    n: int,
    i: int,
)
    requires
        0 <= i < n <= sets.len(),
    ensures
        mfm_info(db, sets[i].material_mfm_path_id) matches Some(info) ==> has_stem(
            mfm_infos(db, sets, n),
            info.stem,
        ) && (!has_stem(mfm_infos(db, sets, i), info.stem) ==> mfm_infos(db, sets, n).contains(
            info,
        )),
    decreases n,
{
    if let Some(info) = mfm_info(db, sets[i].material_mfm_path_id) {
        let before = mfm_infos(db, sets, n - 1);
        let now = mfm_infos(db, sets, n);
        if i < n - 1 {
            materials_are_listed_by_their_stems(db, sets, n - 1, i);
            let k = choose|k: int| 0 <= k < before.len() && (#[trigger] before[k]).stem == info.stem;
            assert(now[k].stem == info.stem);
            if before.contains(info) {
                let j = choose|j: int| 0 <= j < before.len() && before[j] == info;
                assert(now[j] == info);
            }
        } else if !has_stem(before, info.stem) {
            assert(now[before.len() as int] == info);
            assert(now[before.len() as int].stem == info.stem);
        }
    }
}

/// A bound texture is the file that its id leads to, with the stem and the channel of that
/// file; an id of zero, or one that leads nowhere, binds nothing.
pub proof fn bound_textures_are_files(
    db: PrototypeDatabase,
    prop: MaterialProperty,
    h: u64,
    i: int,
)
    requires
        prop.property_type == PropertyType::Texture,
        prop.value == Some(PropertyValue::Texture(h)),
    ensures
        h != 0 && db.path_index(h) == Some(i) ==> (texture_bound(db, prop) matches Some(t) && {
            &&& t.vfs_path == db.paths@[i].full_path@
            &&& t.stem == stem_and_channel(t.vfs_path).0
            &&& t.channel == stem_and_channel(t.vfs_path).1
        }),
        h == 0 || db.path_index(h) is None ==> texture_bound(db, prop) is None,
        float_bound(prop) is None,
{
}

/// The file of a material is the one that its id leads to; an id of zero, or one that leads
/// nowhere, has none.
pub proof fn materials_are_files(db: PrototypeDatabase, id: u64, i: int, stem: Seq<char>)
    requires
        db.path_index(id) == Some(i),
    ensures
        mfm_info(db, 0) is None,
        id != 0 ==> (mfm_info(db, id) matches Some(m) && {
            &&& m.full_path == db.paths@[i].full_path@
            &&& m.material_mfm_path_id == id
            &&& db.paths@[i].name@ == stem + ".mfm"@ ==> m.stem == stem
        }),
        forall|other: u64|
            #![trigger mfm_info(db, other)]
            db.path_index(other) is None ==> mfm_info(db, other) is None,
{
    material_stems_have_no_ending(stem);
}

/// Numbers are bound whichever of the two kinds they are stored as; nothing else is bound as
/// a number, and a number binds no texture.
pub proof fn numbers_of_both_kinds_are_bound(
    db: PrototypeDatabase,
    prop: MaterialProperty,
    v: u32,
)
    requires
        prop.value == Some(PropertyValue::Float(v)),
    ensures
        prop.property_type == PropertyType::FloatA ==> float_bound(prop) == Some(v),
        prop.property_type == PropertyType::FloatB ==> float_bound(prop) == Some(v),
        prop.property_type != PropertyType::FloatA && prop.property_type != PropertyType::FloatB
            ==> float_bound(prop) is None,
        texture_bound(db, prop) is None,
{
}

} // verus!
