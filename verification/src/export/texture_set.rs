//! The pictures of a ship: base textures by material, and one set for each camouflage.
use vstd::prelude::*;

use crate::export::pbr;
use crate::slots;
use crate::slots::NamedSlot;
use crate::text;

verus! {

/// The texture files of a material, where they were found.
#[derive(Debug)]
pub struct MaterialFiles {
    pub stem: String,
    pub albedo: Option<Vec<u8>>,
    pub normal: Option<Vec<u8>>,
    pub metallic_gloss: Option<Vec<u8>>,
    pub occlusion: Option<Vec<u8>>,
}

/// The texture files of a scheme, one for each material, where they were found.
#[derive(Debug)]
pub struct SchemeFiles {
    pub name: String,
    pub files: Vec<Option<Vec<u8>>>,
}

/// The pictures of a scheme by material.
#[derive(Debug)]
pub struct SchemePictures {
    pub name: String,
    pub pictures: Vec<NamedSlot<Vec<u8>>>,
}

impl View for SchemePictures {
    type V = (Seq<char>, Seq<(Seq<char>, Seq<u8>)>);

    open spec fn view(&self) -> (Seq<char>, Seq<(Seq<char>, Seq<u8>)>) {
        (self.name@, slots::slots(self.pictures@))
    }
}

pub open spec fn scheme_views(s: Seq<SchemePictures>) -> Seq<
    (Seq<char>, Seq<(Seq<char>, Seq<u8>)>),
> {
    Seq::new(s.len(), |i: int| s[i]@)
}

/// The pictures of a ship.
#[derive(Debug)]
pub struct TextureSet {
    pub base: Vec<NamedSlot<Vec<u8>>>,
    pub normal_base: Vec<NamedSlot<Vec<u8>>>,
    pub metallic_roughness_base: Vec<NamedSlot<Vec<u8>>>,
    pub occlusion_base: Vec<NamedSlot<Vec<u8>>>,
    pub camo_schemes: Vec<SchemePictures>,
}

impl TextureSet {
    /// Whether there are no pictures.
    pub open spec fn is_empty(&self) -> bool {
        &&& self.base@.len() == 0
        &&& self.normal_base@.len() == 0
        &&& self.metallic_roughness_base@.len() == 0
        &&& self.occlusion_base@.len() == 0
        &&& self.camo_schemes@.len() == 0
    }

    /// No pictures.
    pub fn empty() -> (r: TextureSet)
        ensures
            r.is_empty(),
    {
        TextureSet {
            base: Vec::new(),
            normal_base: Vec::new(),
            metallic_roughness_base: Vec::new(),
            occlusion_base: Vec::new(),
            camo_schemes: Vec::new(),
        }
    }
}

/// A list of pictures with one more, if there is one.
pub open spec fn with_picture(
    list: Seq<(Seq<char>, Seq<u8>)>,
    stem: Seq<char>,
    picture: Option<Seq<u8>>,
) -> Seq<(Seq<char>, Seq<u8>)> {
    match picture {
        Some(png) => slots::bound(list, stem, png),
        None => list,
    }
}

/// Which picture of a material.
pub enum Channel {
    Base,
    Normal,
    MetallicRoughness,
    Occlusion,
}

/// One picture of a material.
pub open spec fn channel_of(m: MaterialFiles, channel: Channel) -> Option<Seq<u8>> {
    match channel {
        Channel::Base => pbr::picture_of(pbr::opt_bytes(m.albedo)),
        Channel::Normal => pbr::repacked_picture(
            pbr::opt_bytes(m.normal),
            |p: Seq<u8>| crate::export::pixels::with_reconstructed_z(p),
        ),
        Channel::MetallicRoughness => pbr::repacked_picture(
            pbr::opt_bytes(m.metallic_gloss),
            |p: Seq<u8>| crate::export::pixels::metallic_roughness(p),
        ),
        Channel::Occlusion => pbr::picture_of(pbr::opt_bytes(m.occlusion)),
    }
}

/// One picture of each of the first `n` materials that has it.
pub open spec fn channel_pictures(m: Seq<MaterialFiles>, channel: Channel, n: int) -> Seq<
    (Seq<char>, Seq<u8>),
>
    decreases n,
{
    if n <= 0 {
        Seq::empty()
    } else {
        with_picture(
            channel_pictures(m, channel, n - 1),
            m[n - 1].stem@,
            channel_of(m[n - 1], channel),
        )
    }
}

/// The pictures of a scheme for the first `n` materials.
pub open spec fn scheme_pictures(
    m: Seq<MaterialFiles>,
    files: Seq<Option<Vec<u8>>>,
    n: int,
) -> Seq<(Seq<char>, Seq<u8>)>
    decreases n,
{
    if n <= 0 {
        Seq::empty()
    } else {
        with_picture(
            scheme_pictures(m, files, n - 1),
            m[n - 1].stem@,
            pbr::picture_of(pbr::opt_bytes(files[n - 1])),
        )
    }
}

/// The schemes among the first `n` that have at least one picture.
pub open spec fn shown_schemes(m: Seq<MaterialFiles>, schemes: Seq<SchemeFiles>, n: int) -> Seq<
    (Seq<char>, Seq<(Seq<char>, Seq<u8>)>),
>
    decreases n,
{
    if n <= 0 {
        Seq::empty()
    } else {
        let before = shown_schemes(m, schemes, n - 1);
        let pictures = scheme_pictures(m, schemes[n - 1].files@, m.len() as int);
        if pictures.len() > 0 {
            before.push((schemes[n - 1].name@, pictures))
        } else {
            before
        }
    }
}

fn add_picture(list: &mut Vec<NamedSlot<Vec<u8>>>, stem: &str, picture: Option<Vec<u8>>)
    ensures
        slots::slots(final(list)@) == with_picture(
            slots::slots(old(list)@),
            stem@,
            pbr::opt_bytes(picture),
        ),
{
    if let Some(png) = picture {
        slots::bind(list, text::copy(stem), png);
    }
}

fn build_scheme(materials: &Vec<MaterialFiles>, scheme: &SchemeFiles) -> (r: SchemePictures)
    requires
        scheme.files@.len() == materials@.len(),
    ensures
        r@ == (
            scheme.name@,
            scheme_pictures(materials@, scheme.files@, materials@.len() as int),
        ),
{
    let mut pictures: Vec<NamedSlot<Vec<u8>>> = Vec::new();
    let mut i: usize = 0;
    assert(slots::slots(pictures@) =~= scheme_pictures(materials@, scheme.files@, 0));
    while i < materials.len()
        invariant
            i <= materials.len(),
            scheme.files@.len() == materials@.len(),
            slots::slots(pictures@) == scheme_pictures(materials@, scheme.files@, i as int),
        decreases materials.len() - i,
    {
        let picture = pbr::picture(&scheme.files[i]);
        add_picture(&mut pictures, materials[i].stem.as_str(), picture);
        i += 1;
    }
    SchemePictures { name: text::copy(scheme.name.as_str()), pictures }
}

impl TextureSet {
    /// Whether these are the pictures of some materials and schemes.
    pub open spec fn shows(&self, materials: Seq<MaterialFiles>, schemes: Seq<SchemeFiles>) -> bool {
        let n = materials.len() as int;
        &&& slots::slots(self.base@) == channel_pictures(materials, Channel::Base, n)
        &&& slots::slots(self.normal_base@) == channel_pictures(materials, Channel::Normal, n)
        &&& slots::slots(self.metallic_roughness_base@) == channel_pictures(
            materials,
            Channel::MetallicRoughness,
            n,
        )
        &&& slots::slots(self.occlusion_base@) == channel_pictures(materials, Channel::Occlusion, n)
        &&& scheme_views(self.camo_schemes@) == shown_schemes(
            materials,
            schemes,
            schemes.len() as int,
        )
    }
}

/// Converts the loaded textures of a ship. What is missing or cannot be converted is
/// left out, and so is a scheme without any picture.
pub fn build_texture_set(materials: &Vec<MaterialFiles>, schemes: &Vec<SchemeFiles>) -> (r:
    TextureSet)
    requires
        forall|i: int|
            0 <= i < schemes@.len() ==> (#[trigger] schemes@[i]).files@.len() == materials@.len(),
    ensures
        r.shows(materials@, schemes@),
{
    let mut base: Vec<NamedSlot<Vec<u8>>> = Vec::new();
    let mut normal_base: Vec<NamedSlot<Vec<u8>>> = Vec::new();
    let mut metallic_roughness_base: Vec<NamedSlot<Vec<u8>>> = Vec::new();
    let mut occlusion_base: Vec<NamedSlot<Vec<u8>>> = Vec::new();
    let mut i: usize = 0;
    assert(slots::slots(base@) =~= Seq::<(Seq<char>, Seq<u8>)>::empty());
    while i < materials.len()
        invariant
            i <= materials.len(),
            slots::slots(base@) == channel_pictures(materials@, Channel::Base, i as int),
            slots::slots(normal_base@) == channel_pictures(materials@, Channel::Normal, i as int),
            slots::slots(metallic_roughness_base@) == channel_pictures(
                materials@,
                Channel::MetallicRoughness,
                i as int,
            ),
            slots::slots(occlusion_base@) == channel_pictures(
                materials@,
                Channel::Occlusion,
                i as int,
            ),
        decreases materials.len() - i,
    {
        let m = &materials[i];
        let stem = m.stem.as_str();
        let channels = pbr::pbr_channels(&m.normal, &m.metallic_gloss, &m.occlusion);
        add_picture(&mut base, stem, pbr::picture(&m.albedo));
        add_picture(&mut normal_base, stem, channels.normal);
        add_picture(&mut metallic_roughness_base, stem, channels.metallic_roughness);
        add_picture(&mut occlusion_base, stem, channels.occlusion);
        i += 1;
    }
    let mut camo_schemes: Vec<SchemePictures> = Vec::new();
    let mut k: usize = 0;
    assert(scheme_views(camo_schemes@) =~= shown_schemes(materials@, schemes@, 0));
    while k < schemes.len()
        invariant
            k <= schemes.len(),
            forall|i: int|
                0 <= i < schemes@.len() ==> (#[trigger] schemes@[i]).files@.len()
                    == materials@.len(),
            scheme_views(camo_schemes@) == shown_schemes(materials@, schemes@, k as int),
        decreases schemes.len() - k,
    {
        let s = build_scheme(materials, &schemes[k]);
        let ghost before = camo_schemes@;
        let ghost view = s@;
        assert(slots::slots(s.pictures@).len() == s.pictures@.len());
        if s.pictures.len() > 0 {
            camo_schemes.push(s);
            assert(scheme_views(camo_schemes@) =~= scheme_views(before).push(view));
        }
        k += 1;
    }
    TextureSet { base, normal_base, metallic_roughness_base, occlusion_base, camo_schemes }
}

// ---- Camouflages of one picture ---------------------------------------------

/// A camouflage with its picture, if there is one.
#[derive(Debug)]
pub struct CamoPicture {
    pub display_name: String,
    pub picture: Option<Vec<u8>>,
    pub tiled: bool,
    /// Index of the camouflage.
    pub entry: usize,
}

/// A tiled scheme of a texture set.
#[derive(Debug, Clone, Copy, PartialEq, Eq, Structural)]
pub struct TiledScheme {
    /// Index among the schemes of the set.
    pub scheme: usize,
    /// Index of the camouflage.
    pub entry: usize,
}

/// One picture for every material.
pub open spec fn spread(stems: Seq<Seq<char>>, png: Seq<u8>) -> Seq<(Seq<char>, Seq<u8>)> {
    Seq::new(stems.len(), |i: int| (stems[i], png))
}

/// The schemes with those of the first `n` camouflages that have a picture.
pub open spec fn with_camos(
    schemes: Seq<(Seq<char>, Seq<(Seq<char>, Seq<u8>)>)>,
    stems: Seq<Seq<char>>,
    camos: Seq<CamoPicture>,
    n: int,
) -> Seq<(Seq<char>, Seq<(Seq<char>, Seq<u8>)>)>
    decreases n,
{
    if n <= 0 {
        schemes
    } else {
        let before = with_camos(schemes, stems, camos, n - 1);
        match pbr::opt_bytes(camos[n - 1].picture) {
            Some(png) => before.push((camos[n - 1].display_name@, spread(stems, png))),
            None => before,
        }
    }
}

/// The tiled ones among the camouflages that were added.
pub open spec fn tiled_camos(
    schemes: Seq<(Seq<char>, Seq<(Seq<char>, Seq<u8>)>)>,
    stems: Seq<Seq<char>>,
    camos: Seq<CamoPicture>,
    n: int,
) -> Seq<TiledScheme>
    decreases n,
{
    if n <= 0 {
        Seq::empty()
    } else {
        let before = tiled_camos(schemes, stems, camos, n - 1);
        if camos[n - 1].picture is Some && camos[n - 1].tiled {
            before.push(
                TiledScheme {
                    scheme: with_camos(schemes, stems, camos, n - 1).len() as usize,
                    entry: camos[n - 1].entry,
                },
            )
        } else {
            before
        }
    }
}

fn spread_picture(stems: &Vec<String>, png: &Vec<u8>) -> (r: Vec<NamedSlot<Vec<u8>>>)
    ensures
        slots::slots(r@) == spread(text::texts(stems@), png@),
{
    let mut out: Vec<NamedSlot<Vec<u8>>> = Vec::new();
    let mut i: usize = 0;
    while i < stems.len()
        invariant
            i <= stems.len(),
            out@.len() == i,
            forall|k: int|
                0 <= k < i ==> (#[trigger] out@[k]).name@ == stems@[k]@ && out@[k].value@ == png@,
        decreases stems.len() - i,
    {
        let copy = copy_bytes(png);
        out.push(NamedSlot { name: text::copy(stems[i].as_str()), value: copy });
        i += 1;
    }
    assert(slots::slots(out@) =~= spread(text::texts(stems@), png@));
    out
}

fn copy_bytes(b: &Vec<u8>) -> (r: Vec<u8>)
    ensures
        r@ == b@,
{
    let mut out: Vec<u8> = Vec::new();
    out.extend_from_slice(b.as_slice());
    assert(out@ =~= b@);
    out
}

/// Adds the camouflages that have a picture as schemes that show it on every material,
/// and tells which of them are tiled.
pub fn add_camos(set: &mut TextureSet, stems: &Vec<String>, camos: &Vec<CamoPicture>) -> (r: Vec<
    TiledScheme,
>)
    ensures
        scheme_views(final(set).camo_schemes@) == with_camos(
            scheme_views(old(set).camo_schemes@),
            text::texts(stems@),
            camos@,
            camos@.len() as int,
        ),
        r@ == tiled_camos(
            scheme_views(old(set).camo_schemes@),
            text::texts(stems@),
            camos@,
            camos@.len() as int,
        ),
        final(set).base == old(set).base,
        final(set).normal_base == old(set).normal_base,
        final(set).metallic_roughness_base == old(set).metallic_roughness_base,
        final(set).occlusion_base == old(set).occlusion_base,
{
    let ghost start = scheme_views(set.camo_schemes@);
    let ghost names = text::texts(stems@);
    let mut tiled: Vec<TiledScheme> = Vec::new();
    let mut i: usize = 0;
    while i < camos.len()
        invariant
            i <= camos.len(),
            names == text::texts(stems@),
            start == scheme_views(old(set).camo_schemes@),
            scheme_views(set.camo_schemes@) == with_camos(start, names, camos@, i as int),
            tiled@ == tiled_camos(start, names, camos@, i as int),
            set.base == old(set).base,
            set.normal_base == old(set).normal_base,
            set.metallic_roughness_base == old(set).metallic_roughness_base,
            set.occlusion_base == old(set).occlusion_base,
        decreases camos.len() - i,
    {
        if let Some(png) = &camos[i].picture {
            let at: usize = set.camo_schemes.len();
            assert(scheme_views(set.camo_schemes@).len() == at);
            let s = SchemePictures {
                name: text::copy(camos[i].display_name.as_str()),
                pictures: spread_picture(stems, png),
            };
            let ghost before = set.camo_schemes@;
            let ghost view = s@;
            set.camo_schemes.push(s);
            assert(scheme_views(set.camo_schemes@) =~= scheme_views(before).push(view));
            if camos[i].tiled {
                tiled.push(TiledScheme { scheme: at, entry: camos[i].entry });
            }
        }
        i += 1;
    }
    tiled
}

/// No scheme of a texture set is empty.
pub proof fn shown_schemes_are_not_empty(m: Seq<MaterialFiles>, schemes: Seq<SchemeFiles>, n: int)
    requires
        0 <= n <= schemes.len(),
    ensures
        forall|k: int|
            0 <= k < shown_schemes(m, schemes, n).len() ==> (#[trigger] shown_schemes(
                m,
                schemes,
                n,
            )[k]).1.len() > 0,
    decreases n,
{
    if n > 0 {
        shown_schemes_are_not_empty(m, schemes, n - 1);
        let before = shown_schemes(m, schemes, n - 1);
        let now = shown_schemes(m, schemes, n);
        assert forall|k: int| 0 <= k < now.len() implies (#[trigger] now[k]).1.len() > 0 by {
            if k < before.len() {
                assert(now[k] == before[k]);
            }
        }
    }
}

/// What is found under a name.
pub open spec fn picture_under(list: Seq<(Seq<char>, Seq<u8>)>, stem: Seq<char>) -> Option<
    Seq<u8>,
> {
    match slots::slot_from(list, stem, 0) {
        Some(i) => Some(list[i].1),
        None => None,
    }
}

proof fn last_pictures_count(m: Seq<MaterialFiles>, channel: Channel, n: int, k: int)
    requires
        0 <= k < n <= m.len(),
        forall|j: int| k < j < n ==> (#[trigger] m[j]).stem@ != m[k].stem@,
        channel_of(m[k], channel) is Some,
    ensures
        picture_under(channel_pictures(m, channel, n), m[k].stem@) == channel_of(m[k], channel),
    decreases n,
{
    let before = channel_pictures(m, channel, n - 1);
    if k < n - 1 {
        last_pictures_count(m, channel, n - 1, k);
        assert(m[n - 1].stem@ != m[k].stem@);
        if channel_of(m[n - 1], channel) is Some {
            slots::other_bindings_keep_slots(
                before,
                m[n - 1].stem@,
                channel_of(m[n - 1], channel)->0,
                m[k].stem@,
            );
        }
    } else {
        slots::bindings_are_found(before, m[k].stem@, channel_of(m[k], channel)->0);
    }
}

/// Every material shows its own files, each for its own purpose: colours come from the
/// albedo file, normals from the normal file, metallic and roughness from the metallic and
/// gloss file, occlusion from the occlusion file. Of materials that share a stem the last
/// one counts.
pub proof fn materials_show_their_files(
    set: TextureSet,
    m: Seq<MaterialFiles>,
    schemes: Seq<SchemeFiles>,
    k: int,
)
    requires
        set.shows(m, schemes),
        0 <= k < m.len(),
        forall|j: int| k < j < m.len() ==> (#[trigger] m[j]).stem@ != m[k].stem@,
    ensures
        pbr::picture_of(pbr::opt_bytes(m[k].albedo)) matches Some(png) ==> picture_under(
            slots::slots(set.base@),
            m[k].stem@,
        ) == Some(png),
        pbr::repacked_picture(
            pbr::opt_bytes(m[k].normal),
            |p: Seq<u8>| crate::export::pixels::with_reconstructed_z(p),
        ) matches Some(png) ==> picture_under(slots::slots(set.normal_base@), m[k].stem@) == Some(
            png,
        ),
        pbr::repacked_picture(
            pbr::opt_bytes(m[k].metallic_gloss),
            |p: Seq<u8>| crate::export::pixels::metallic_roughness(p),
        ) matches Some(png) ==> picture_under(
            slots::slots(set.metallic_roughness_base@),
            m[k].stem@,
        ) == Some(png),
        pbr::picture_of(pbr::opt_bytes(m[k].occlusion)) matches Some(png) ==> picture_under(
            slots::slots(set.occlusion_base@),
            m[k].stem@,
        ) == Some(png),
{
    let n = m.len() as int;
    if channel_of(m[k], Channel::Base) is Some {
        last_pictures_count(m, Channel::Base, n, k);
    }
    if channel_of(m[k], Channel::Normal) is Some {
        last_pictures_count(m, Channel::Normal, n, k);
    }
    if channel_of(m[k], Channel::MetallicRoughness) is Some {
        last_pictures_count(m, Channel::MetallicRoughness, n, k);
    }
    if channel_of(m[k], Channel::Occlusion) is Some {
        last_pictures_count(m, Channel::Occlusion, n, k);
    }
}

/// A scheme shows on every material the file that was found for that material.
pub proof fn schemes_show_the_file_of_the_material(
    m: Seq<MaterialFiles>,
    files: Seq<Option<Vec<u8>>>,
    n: int,
    k: int,
)
    requires
        0 <= k < n <= m.len(),
        files.len() == m.len(),
        forall|j: int| k < j < n ==> (#[trigger] m[j]).stem@ != m[k].stem@,
        pbr::picture_of(pbr::opt_bytes(files[k])) is Some,
    ensures
        picture_under(scheme_pictures(m, files, n), m[k].stem@) == pbr::picture_of(
            pbr::opt_bytes(files[k]),
        ),
    decreases n,
{
    let before = scheme_pictures(m, files, n - 1);
    if k < n - 1 {
        schemes_show_the_file_of_the_material(m, files, n - 1, k);
        assert(m[n - 1].stem@ != m[k].stem@);
        if pbr::picture_of(pbr::opt_bytes(files[n - 1])) is Some {
            slots::other_bindings_keep_slots(
                before,
                m[n - 1].stem@,
                pbr::picture_of(pbr::opt_bytes(files[n - 1]))->0,
                m[k].stem@,
            );
        }
    } else {
        slots::bindings_are_found(before, m[k].stem@, pbr::picture_of(pbr::opt_bytes(files[k]))->0);
    }
}

/// A camouflage with a picture becomes a scheme of its name behind those that were there,
/// and shows the picture on every material. If it is tiled, it is noted with the index of
/// that scheme and its own entry.
#[verifier::rlimit(50)]
pub proof fn camouflages_become_schemes(
    schemes: Seq<(Seq<char>, Seq<(Seq<char>, Seq<u8>)>)>,
    stems: Seq<Seq<char>>,
    camos: Seq<CamoPicture>,
    n: int,
    i: int,
)
    requires
        0 <= i < n <= camos.len(),
        schemes.len() + camos.len() <= usize::MAX,
    ensures
        with_camos(schemes, stems, camos, n).len() <= schemes.len() + n,
        pbr::opt_bytes(camos[i].picture) matches Some(png) ==> {
            let at = with_camos(schemes, stems, camos, i).len() as int;
            &&& schemes.len() <= at < with_camos(schemes, stems, camos, n).len()
            &&& with_camos(schemes, stems, camos, n)[at].0 == camos[i].display_name@
            &&& with_camos(schemes, stems, camos, n)[at].1.len() == stems.len()
            &&& forall|k: int|
                0 <= k < stems.len() ==> #[trigger] with_camos(schemes, stems, camos, n)[at].1[k]
                    == (stems[k], png)
            &&& camos[i].tiled ==> tiled_camos(schemes, stems, camos, n).contains(
                (TiledScheme { scheme: at as usize, entry: camos[i].entry }),
            )
        },
    decreases n,
{
    let now = with_camos(schemes, stems, camos, n);
    let before = with_camos(schemes, stems, camos, n - 1);
    let tiled = tiled_camos(schemes, stems, camos, n);
    let earlier = tiled_camos(schemes, stems, camos, n - 1);
    if n > 1 {
        let j = if i < n - 1 {
            i
        } else {
            0
        };
        camouflages_become_schemes(schemes, stems, camos, n - 1, j);
    }
    schemes_stay(schemes, stems, camos, i);
    if let Some(png) = pbr::opt_bytes(camos[i].picture) {
        let at = with_camos(schemes, stems, camos, i).len() as int;
        let note = TiledScheme { scheme: at as usize, entry: camos[i].entry };
        if i < n - 1 {
            assert(now[at] == before[at]);
            if camos[i].tiled {
                let k = choose|k: int| 0 <= k < earlier.len() && earlier[k] == note;
                assert(tiled[k] == note);
            }
        } else {
            assert(now[at] == (camos[i].display_name@, spread(stems, png)));
            if camos[i].tiled {
                assert(tiled[earlier.len() as int] == note);
            }
        }
    }
}

proof fn schemes_stay(
    schemes: Seq<(Seq<char>, Seq<(Seq<char>, Seq<u8>)>)>,
    stems: Seq<Seq<char>>,
    camos: Seq<CamoPicture>,
    n: int,
)
    ensures
        with_camos(schemes, stems, camos, n).len() >= schemes.len(),
    decreases n,
{
    if n > 0 {
        schemes_stay(schemes, stems, camos, n - 1);
    }
}

} // verus!
