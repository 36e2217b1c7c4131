//! All fonts that can be looked up: the built-in faces, the fonts that applications carry, and
//! the faces that replace any of them.
#[allow(unused_imports)]
use crate::cache::family_sizes;
use crate::cache::FaceCache;
use crate::catalogue::{face_models, is_catalogue, packed_faces, packed_models, PixelFonts};
#[allow(unused_imports)]
use crate::extent::parses_in_range;
use crate::glyph::{FaceModel, FontFace, ItalicFace, ItalicModel, MacRomanFace, RomanModel};
#[allow(unused_imports)]
use crate::laws::pixels::{
    law_new_fonts_are_whole, law_rasters_keep_fonts_whole, law_strikes_keep_fonts_whole,
};
use crate::leak::{leak_box, leak_vec};
#[allow(unused_imports)]
use crate::nearest::is_nearest;
use crate::raster::{assemble_face, raster_face, raster_roman, OutlineRaster};
use crate::sfnt::is_font_ref;
#[allow(unused_imports)]
use crate::sfnt::{face_accepts, font_ref_accepts};
use crate::strike::{decode_strike, ROMAN_CODES};
#[allow(unused_imports)]
use crate::strike::{
    ascent_overflows, ascii_glyphs, is_strike, roman_coverage, roman_glyphs, strike_metrics,
};
use std::collections::HashMap;
use vstd::prelude::*;

verus! {

/// All fonts that can be looked up.
pub struct FontStore {
    table: &'static [FontFace],
    macroman_table: &'static [MacRomanFace],
    italic_table: &'static [ItalicFace],
    mac_roman: Vec<char>,
    strikes: FaceCache<FontFace>,
    roman_strikes: FaceCache<MacRomanFace>,
    outlines: HashMap<i16, &'static [u8]>,
    override_dir: Option<Vec<u8>>,
    override_faces: FaceCache<FontFace>,
    override_any: bool,
    overrides_resolved: bool,
}

/// What a [`FontStore`] holds.
#[verifier::ext_equal]
pub struct StoreModel {
    /// The built-in faces.
    pub table: Seq<FaceModel>,
    /// The built-in Mac Roman faces.
    pub macroman_table: Seq<RomanModel>,
    /// The built-in italic strikes.
    pub italic_table: Seq<ItalicModel>,
    /// The characters of the Mac Roman codes above the ASCII range.
    pub mac_roman: Seq<char>,
    /// The faces that come from applications, and those that were rasterised.
    pub strikes: Map<(i16, i16), FaceModel>,
    /// The Mac Roman characters above the ASCII range of those faces.
    pub roman_strikes: Map<(i16, i16), RomanModel>,
    /// The scalable fonts that come from applications.
    pub outlines: Map<i16, Seq<u8>>,
    /// The directory that the overriding faces were last loaded from.
    pub override_dir: Option<Seq<u8>>,
    /// The faces that override all others.
    pub override_faces: Map<(i16, i16), FaceModel>,
    /// The overriding faces are those of the directory that the environment names.
    pub overrides_resolved: bool,
}

impl StoreModel {
    /// The built-in faces are all there, and have neither Mac Roman characters above the ASCII
    /// range nor italics. Every face from an application is found under its own family and size.
    /// All these faces are whole. Every scalable font can be read, and without a directory to
    /// load from nothing overrides any face.
    pub open spec fn wf(self) -> bool {
        &&& is_catalogue(self.table)
        &&& forall|i: int| 0 <= i < self.table.len() ==> (#[trigger] self.table[i]).whole()
        &&& self.macroman_table.len() == 0
        &&& self.italic_table.len() == 0
        &&& forall|k: i16| #[trigger]
            self.outlines.contains_key(k) ==> parses_in_range(self.outlines[k])
        &&& forall|k: (i16, i16)| #[trigger]
            self.strikes.contains_key(k) ==> self.strikes[k].font_id == k.0
                && self.strikes[k].size == k.1 && self.strikes[k].whole()
        &&& forall|k: (i16, i16)| #[trigger]
            self.roman_strikes.contains_key(k) ==> self.roman_strikes[k].font_id == k.0
                && self.roman_strikes[k].size == k.1 && self.roman_strikes[k].drawable()
        &&& self.override_dir is None ==> self.override_faces == Map::<
            (i16, i16),
            FaceModel,
        >::empty()
    }
}

/// The built-in faces alone.
pub open spec fn new_fonts(art: PixelFonts, mac_roman: Seq<char>) -> StoreModel {
    StoreModel {
        table: packed_models(art),
        macroman_table: Seq::empty(),
        italic_table: Seq::empty(),
        mac_roman,
        strikes: Map::empty(),
        roman_strikes: Map::empty(),
        outlines: Map::empty(),
        override_dir: None,
        override_faces: Map::empty(),
        overrides_resolved: false,
    }
}

/// The path as a sequence of bytes.
pub open spec fn path_model(path: Option<Vec<u8>>) -> Option<Seq<u8>> {
    match path {
        Some(bytes) => Some(bytes@),
        None => None,
    }
}

impl View for FontStore {
    type V = StoreModel;

    closed spec fn view(&self) -> StoreModel {
        StoreModel {
            table: face_models(self.table@),
            macroman_table: self.macroman_table@.map_values(|face: MacRomanFace| face@),
            italic_table: self.italic_table@.map_values(|face: ItalicFace| face@),
            mac_roman: self.mac_roman@,
            strikes: self.strikes@.map_values(|face: FontFace| face@),
            roman_strikes: self.roman_strikes@.map_values(|face: MacRomanFace| face@),
            outlines: self.outlines@.map_values(|bytes: &'static [u8]| bytes@),
            override_dir: path_model(self.override_dir),
            override_faces: self.override_faces@.map_values(|face: FontFace| face@),
            overrides_resolved: self.overrides_resolved,
        }
    }
}

/// The face that a strike makes up under a family and a size.
pub open spec fn strike_face(font_id: i16, size: i16, bytes: Seq<u8>) -> FaceModel {
    FaceModel {
        font_id,
        size,
        metrics: strike_metrics(bytes),
        glyphs: ascii_glyphs(bytes),
        data: roman_coverage(bytes, ROMAN_CODES as nat),
    }
}

/// The Mac Roman characters above the ASCII range of the face that a strike makes up.
pub open spec fn strike_roman(font_id: i16, size: i16, bytes: Seq<u8>) -> RomanModel {
    RomanModel {
        font_id,
        size,
        glyphs: roman_glyphs(bytes, ROMAN_CODES as nat),
        data: roman_coverage(bytes, ROMAN_CODES as nat),
    }
}

/// The fonts with a strike added. Mac Roman characters of an earlier strike stay if the new one
/// has none.
pub open spec fn with_strike(
    fonts: StoreModel,
    family_id: i16,
    size: i16,
    bytes: Seq<u8>,
) -> StoreModel {
    StoreModel {
        strikes: fonts.strikes.insert((family_id, size), strike_face(family_id, size, bytes)),
        roman_strikes: if roman_glyphs(bytes, ROMAN_CODES as nat).len() > 0 {
            fonts.roman_strikes.insert((family_id, size), strike_roman(family_id, size, bytes))
        } else {
            fonts.roman_strikes
        },
        ..fonts
    }
}

/// The strike can be registered under the family and the size.
pub open spec fn registers(family_id: i16, size: i16, bytes: Seq<u8>) -> bool {
    family_id >= 0 && size > 0 && is_strike(bytes)
}

/// The classic strike with that number can be registered.
pub open spec fn registers_classic(resource_id: i16, bytes: Seq<u8>) -> bool {
    resource_id > 0 && resource_id % 128 > 0 && is_strike(bytes)
}

/// The fonts with a classic strike added, whose number is 128 times the family plus the size.
pub open spec fn with_classic_strike(
    fonts: StoreModel,
    resource_id: i16,
    bytes: Seq<u8>,
) -> StoreModel {
    with_strike(fonts, (resource_id / 128) as i16, (resource_id % 128) as i16, bytes)
}

/// The fonts with a rasterised font added.
pub open spec fn with_raster(
    fonts: StoreModel,
    font_id: i16,
    size: i16,
    raster: OutlineRaster,
) -> StoreModel {
    StoreModel {
        strikes: fonts.strikes.insert((font_id, size), raster_face(font_id, size, raster)),
        roman_strikes: fonts.roman_strikes.insert(
            (font_id, size),
            raster_roman(font_id, size, raster),
        ),
        ..fonts
    }
}

impl FontStore {
    /// What the store relies on.
    pub closed spec fn wf(self) -> bool {
        &&& self@.wf()
        &&& self.override_any == (self.override_faces@ != Map::<(i16, i16), FontFace>::empty())
    }

    /// A well-formed store holds well-formed fonts.
    pub proof fn lemma_wf(self)
        requires
            self.wf(),
        ensures
            self@.wf(),
    {
    }

    /// The built-in faces, with nothing registered and the environment not consulted yet.
    /// `mac_roman` lists the characters of the Mac Roman codes from 0x80 on.
    /// `PixelFonts::is_whole` tells whether the artwork can be used.
    pub fn new(art: &PixelFonts, mac_roman: Vec<char>) -> (fonts: FontStore)
        requires
            art.whole(),
        ensures
            fonts.wf(),
            fonts@ == new_fonts(*art, mac_roman@),
    {
        let table = packed_faces(art);
        let fonts = FontStore {
            table: leak_vec(table),
            macroman_table: leak_vec(Vec::new()),
            italic_table: leak_vec(Vec::new()),
            mac_roman,
            strikes: FaceCache::new(),
            roman_strikes: FaceCache::new(),
            outlines: HashMap::new(),
            override_dir: None,
            override_faces: FaceCache::new(),
            override_any: false,
            overrides_resolved: false,
        };
        assert(fonts@ =~= new_fonts(*art, mac_roman@));
        proof {
            law_new_fonts_are_whole(*art, mac_roman@);
        }
        fonts
    }
}

/// Decodes a bitmap strike and registers it under a family and a size, in place of an earlier
/// one.
pub fn register_resource_font_strike_for_family(
    fonts: &mut FontStore,
    family_id: i16,
    size: i16,
    bytes: &[u8],
) -> (registered: bool)
    requires
        old(fonts).wf(),
        family_id >= 0 && size > 0 ==> !ascent_overflows(bytes@),
    ensures
        final(fonts).wf(),
        registered == registers(family_id, size, bytes@),
        registered ==> final(fonts)@ == with_strike(old(fonts)@, family_id, size, bytes@),
        !registered ==> final(fonts)@ == old(fonts)@,
{
    if family_id < 0 || size <= 0 {
        return false;
    }
    let strike = match decode_strike(bytes) {
        Some(strike) => strike,
        None => return false,
    };
    let coverage = leak_vec(strike.coverage);
    let face = leak_box(
        Box::new(
            FontFace {
                font_id: family_id,
                size,
                metrics: strike.metrics,
                glyphs: leak_vec(strike.ascii),
                data: coverage,
            },
        ),
    );
    fonts.strikes.insert(family_id, size, face);
    if !strike.macroman.is_empty() {
        let roman = leak_box(
            Box::new(
                MacRomanFace {
                    font_id: family_id,
                    size,
                    glyphs: leak_vec(strike.macroman),
                    data: coverage,
                },
            ),
        );
        fonts.roman_strikes.insert(family_id, size, roman);
    }
    assert(fonts@ =~= with_strike(old(fonts)@, family_id, size, bytes@));
    proof {
        law_strikes_keep_fonts_whole(old(fonts)@, family_id, size, bytes@);
    }
    true
}

/// Decodes a classic `FONT` strike, whose resource number is 128 times the family plus the size,
/// and registers it.
pub fn register_resource_font_strike(fonts: &mut FontStore, resource_id: i16, bytes: &[u8]) -> (
registered: bool)
    requires
        old(fonts).wf(),
        resource_id > 0 && resource_id % 128 > 0 ==> !ascent_overflows(bytes@),
    ensures
        final(fonts).wf(),
        registered == registers_classic(resource_id, bytes@),
        registered ==> final(fonts)@ == with_classic_strike(old(fonts)@, resource_id, bytes@),
        !registered ==> final(fonts)@ == old(fonts)@,
{
    if resource_id <= 0 {
        return false;
    }
    let family_id: i16 = resource_id / 128;
    let size: i16 = resource_id % 128;
    if size <= 0 {
        return false;
    }
    register_resource_font_strike_for_family(fonts, family_id, size, bytes)
}

/// The fonts with a scalable font added.
pub open spec fn with_outline(fonts: StoreModel, family_id: i16, bytes: Seq<u8>) -> StoreModel {
    StoreModel { outlines: fonts.outlines.insert(family_id, bytes), ..fonts }
}

/// Registers a scalable font for a family, in place of an earlier one. It is rasterised at the
/// sizes that are asked for. `outline_parses_in_range` tells whether the resource can be read.
pub fn register_resource_outline_font(fonts: &mut FontStore, family_id: i16, bytes: &[u8]) -> (
registered: bool)
    requires
        old(fonts).wf(),
        family_id >= 0 ==> parses_in_range(bytes@),
    ensures
        final(fonts).wf(),
        registered == (family_id >= 0 && font_ref_accepts(bytes@)),
        registered ==> face_accepts(bytes@),
        registered ==> final(fonts)@ == with_outline(old(fonts)@, family_id, bytes@),
        !registered ==> final(fonts)@ == old(fonts)@,
{
    if family_id < 0 || !is_font_ref(bytes) {
        return false;
    }
    add_outline(fonts, family_id, bytes);
    true
}

/// Keeps a scalable font for a family, in place of an earlier one.
fn add_outline(fonts: &mut FontStore, family_id: i16, bytes: &[u8])
    requires
        old(fonts).wf(),
        parses_in_range(bytes@),
    ensures
        final(fonts).wf(),
        final(fonts)@ == with_outline(old(fonts)@, family_id, bytes@),
{
    broadcast use vstd::std_specs::hash::group_hash_axioms;

    let kept = leak_vec(vstd::slice::slice_to_vec(bytes));
    fonts.outlines.insert(family_id, kept);
    assert(fonts@ =~= with_outline(old(fonts)@, family_id, bytes@));
}

/// Makes a face of a rasterised font and files it with the strikes under the family and the size
/// that were asked for.
pub fn install_outline_face(
    fonts: &mut FontStore,
    font_id: i16,
    size: i16,
    raster: &OutlineRaster,
) -> (face: &'static FontFace)
    requires
        old(fonts).wf(),
        raster.complete(),
    ensures
        final(fonts).wf(),
        final(fonts)@ == with_raster(old(fonts)@, font_id, size, *raster),
        face@ == raster_face(font_id, size, *raster),
{
    let assembled = assemble_face(raster);
    let coverage = leak_vec(assembled.coverage);
    let face = leak_box(
        Box::new(
            FontFace {
                font_id,
                size,
                metrics: assembled.metrics,
                glyphs: leak_vec(assembled.ascii),
                data: coverage,
            },
        ),
    );
    fonts.strikes.insert(font_id, size, face);
    let roman = leak_box(
        Box::new(
            MacRomanFace { font_id, size, glyphs: leak_vec(assembled.macroman), data: coverage },
        ),
    );
    fonts.roman_strikes.insert(font_id, size, roman);
    assert(fonts@ =~= with_raster(old(fonts)@, font_id, size, *raster));
    proof {
        law_rasters_keep_fonts_whole(old(fonts)@, font_id, size, *raster);
    }
    face
}

/// One face of the directory of overriding faces, and what it overrides.
#[derive(Clone, Copy, Debug)]
pub struct OverrideFace {
    pub font_id: i16,
    pub size: i16,
    pub face: &'static FontFace,
}

/// The first `count` of the loaded faces, by what they override. Of two for the same family and
/// size the later counts.
pub open spec fn override_map(loaded: Seq<OverrideFace>, count: nat) -> Map<(i16, i16), FaceModel>
    decreases count,
{
    if count == 0 {
        Map::empty()
    } else {
        let entry = loaded[count - 1];
        override_map(loaded, (count - 1) as nat).insert((entry.font_id, entry.size), entry.face@)
    }
}

/// The fonts after the directory that the environment names has been looked at. What was loaded
/// counts only if the directory is not the one that was loaded last.
pub open spec fn with_overrides(
    fonts: StoreModel,
    env_dir: Option<Seq<u8>>,
    loaded: Seq<OverrideFace>,
) -> StoreModel {
    StoreModel {
        override_dir: env_dir,
        override_faces: if fonts.override_dir == env_dir {
            fonts.override_faces
        } else if env_dir is Some {
            override_map(loaded, loaded.len())
        } else {
            Map::empty()
        },
        overrides_resolved: true,
        ..fonts
    }
}

/// Makes the next lookup consult the environment again.
pub fn refresh_font_overrides(fonts: &mut FontStore)
    requires
        old(fonts).wf(),
    ensures
        final(fonts).wf(),
        final(fonts)@ == (StoreModel { overrides_resolved: false, ..old(fonts)@ }),
{
    fonts.overrides_resolved = false;
    assert(fonts@ =~= (StoreModel { overrides_resolved: false, ..old(fonts)@ }));
}

/// Tells whether the directory that the environment names has to be loaded: it is another than
/// the one that was loaded last.
pub fn needs_override_directory(fonts: &FontStore, env_dir: &Option<Vec<u8>>) -> (needed: bool)
    requires
        fonts.wf(),
    ensures
        needed == (env_dir is Some && path_model(*env_dir) != fonts@.override_dir),
{
    env_dir.is_some() && !same_path(&fonts.override_dir, env_dir)
}

fn same_path(a: &Option<Vec<u8>>, b: &Option<Vec<u8>>) -> (same: bool)
    ensures
        same == (path_model(*a) == path_model(*b)),
{
    match (a, b) {
        (None, None) => true,
        (Some(x), Some(y)) => {
            if x.len() != y.len() {
                return false;
            }
            let mut i: usize = 0;
            while i < x.len()
                invariant
                    path_model(*a) == Some(x@),
                    path_model(*b) == Some(y@),
                    x@.len() == y@.len(),
                    i <= x@.len(),
                    forall|j: int| 0 <= j < i ==> x@[j] == y@[j],
                decreases x@.len() - i,
            {
                if x[i] != y[i] {
                    return false;
                }
                i = i + 1;
            }
            assert(x@ =~= y@);
            true
        },
        _ => false,
    }
}

/// Takes over what the environment names, and the faces that were loaded from there.
pub fn resolve_font_overrides(
    fonts: &mut FontStore,
    env_dir: Option<Vec<u8>>,
    loaded: &Vec<OverrideFace>,
)
    requires
        old(fonts).wf(),
    ensures
        final(fonts).wf(),
        final(fonts)@ == with_overrides(old(fonts)@, path_model(env_dir), loaded@),
{
    if !same_path(&fonts.override_dir, &env_dir) {
        fonts.override_faces = if env_dir.is_some() {
            override_cache(loaded)
        } else {
            FaceCache::new()
        };
        fonts.override_dir = env_dir;
    }
    fonts.override_any = !fonts.override_faces.is_empty();
    fonts.overrides_resolved = true;
    assert(fonts@ =~= with_overrides(old(fonts)@, path_model(env_dir), loaded@));
}

/// Files the loaded faces by what they override.
fn override_cache(loaded: &Vec<OverrideFace>) -> (cache: FaceCache<FontFace>)
    ensures
        cache@.map_values(|face: FontFace| face@) == override_map(loaded@, loaded@.len()),
{
    let mut cache: FaceCache<FontFace> = FaceCache::new();
    let mut i: usize = 0;
    assert(cache@.map_values(|face: FontFace| face@) =~= override_map(loaded@, 0));
    while i < loaded.len()
        invariant
            i <= loaded@.len(),
            cache@.map_values(|face: FontFace| face@) == override_map(loaded@, i as nat),
        decreases loaded@.len() - i,
    {
        let entry = loaded[i];
        let ghost before = cache@;
        cache.insert(entry.font_id, entry.size, entry.face);
        assert(cache@.map_values(|face: FontFace| face@) =~= before.map_values(
            |face: FontFace| face@,
        ).insert((entry.font_id, entry.size), entry.face@));
        i = i + 1;
    }
    cache
}

impl FontStore {
    /// The environment has been consulted since the start and since the last refresh.
    pub fn overrides_resolved(&self) -> (resolved: bool)
        requires
            self.wf(),
        ensures
            resolved == self@.overrides_resolved,
    {
        self.overrides_resolved
    }

    /// The built-in faces.
    pub fn font_table(&self) -> (table: &'static [FontFace])
        requires
            self.wf(),
        ensures
            face_models(table@) == self@.table,
    {
        self.table
    }

    pub(crate) fn macroman_table(&self) -> (table: &'static [MacRomanFace])
        requires
            self.wf(),
        ensures
            table@.map_values(|face: MacRomanFace| face@) == self@.macroman_table,
    {
        self.macroman_table
    }

    pub(crate) fn italic_table(&self) -> (table: &'static [ItalicFace])
        requires
            self.wf(),
        ensures
            table@.map_values(|face: ItalicFace| face@) == self@.italic_table,
    {
        self.italic_table
    }

    pub(crate) fn mac_roman(&self) -> (table: &Vec<char>)
        requires
            self.wf(),
        ensures
            table@ == self@.mac_roman,
    {
        &self.mac_roman
    }

    /// The face that overrides all others under a family and a size.
    pub(crate) fn override_face(&self, font_id: i16, size: i16) -> (face: Option<&'static FontFace>)
        requires
            self.wf(),
        ensures
            face.deep_view() == self@.override_faces.get((font_id, size)),
    {
        if !self.override_any {
            return None;
        }
        self.override_faces.get(font_id, size)
    }

    pub(crate) fn strike(&self, font_id: i16, size: i16) -> (face: Option<&'static FontFace>)
        requires
            self.wf(),
        ensures
            face.deep_view() == self@.strikes.get((font_id, size)),
    {
        self.strikes.get(font_id, size)
    }

    pub(crate) fn roman_strike(&self, font_id: i16, size: i16) -> (face: Option<
        &'static MacRomanFace,
    >)
        requires
            self.wf(),
        ensures
            face is Some <==> self@.roman_strikes.contains_key((font_id, size)),
            face matches Some(f) ==> f@ == self@.roman_strikes[(font_id, size)],
    {
        self.roman_strikes.get(font_id, size)
    }

    pub(crate) fn outline(&self, font_id: i16) -> (bytes: Option<&'static [u8]>)
        requires
            self.wf(),
        ensures
            bytes is Some <==> self@.outlines.contains_key(font_id),
            bytes matches Some(b) ==> b@ == self@.outlines[font_id],
    {
        broadcast use vstd::std_specs::hash::group_hash_axioms;

        match self.outlines.get(&font_id) {
            Some(bytes) => Some(*bytes),
            None => None,
        }
    }

    /// The size that stands in best for `requested` among those of the family's strikes.
    pub(crate) fn nearest_strike(&self, font_id: i16, requested: i16) -> (size: Option<i16>)
        requires
            self.wf(),
        ensures
            size is None <==> forall|s: i16| !self@.strikes.contains_key((font_id, s)),
            size matches Some(s) ==> is_nearest(
                family_sizes(self@.strikes, font_id),
                requested,
                s,
            ),
    {
        let size = self.strikes.nearest_size(font_id, requested);
        assert(family_sizes(self@.strikes, font_id) =~= family_sizes(self.strikes@, font_id));
        assert(forall|s: i16|
            self@.strikes.contains_key((font_id, s)) == self.strikes@.contains_key((font_id, s)));
        size
    }
}

} // verus!
