//! How the raw bytes of a text string become text under one font.
use std::collections::HashMap;

use pdf::font::ToUnicodeMap;
use pdf_encoding::DifferenceForwardMap;
use vstd::prelude::*;

use crate::encoding::{
    base_table, difference_entries, difference_get, difference_map, entry_of, forward_chars,
    glyph_text, merged_entry, table_chars, BaseEncoding,
};
use crate::error::Error;

verus! {

#[verifier::external_type_specification]
#[verifier::external_body]
pub struct ExToUnicodeMap(ToUnicodeMap);

/// The text that a Unicode map holds for each code that it maps.
pub uninterp spec fn unicode_entries(m: ToUnicodeMap) -> Map<u16, Seq<char>>;

/// The characters of UTF-16 code units: a high surrogate followed by a low
/// one is one character; `None` where a surrogate is unpaired.
pub open spec fn utf16_chars(units: Seq<u16>) -> Option<Seq<char>>
    decreases units.len(),
{
    if units.len() == 0 {
        Some(seq![])
    } else {
        let u = units[0] as int;
        if u < 0xd800 || u > 0xdfff {
            match utf16_chars(units.drop_first()) {
                Some(rest) => Some(seq![(u as u32) as char] + rest),
                None => None,
            }
        } else if u <= 0xdbff && units.len() >= 2 && 0xdc00 <= units[1] <= 0xdfff {
            let c = (0x10000 + (u - 0xd800) * 0x400 + (units[1] as int - 0xdc00)) as u32;
            match utf16_chars(units.subrange(2, units.len() as int)) {
                Some(rest) => Some(seq![c as char] + rest),
                None => None,
            }
        } else {
            None
        }
    }
}

/// The text of UTF-16BE bytes, or `None` where a code unit is an unpaired
/// surrogate; a trailing odd byte is ignored.
pub open spec fn utf16be_text(b: Seq<u8>) -> Option<Seq<char>> {
    utf16_chars(unit_codes(b))
}

/// The text of UTF-8 bytes, or `None` where they are not valid UTF-8.
pub open spec fn utf8_text(b: Seq<u8>) -> Option<Seq<char>> {
    if vstd::utf8::valid_utf8(b) {
        Some(vstd::utf8::decode_utf8(b))
    } else {
        None
    }
}

/// Relies on `pdf::font::ToUnicodeMap::get`: the text stored for a code.
#[verifier::external_body]
fn unicode_get(m: &ToUnicodeMap, code: u16) -> (r: Option<String>)
    ensures
        r is Some <==> unicode_entries(*m).contains_key(code),
        r matches Some(s) ==> s@ == unicode_entries(*m)[code],
{
    m.get(code).map(String::from)
}

/// Relies on `pdf::font::utf16be_to_char`, which runs `char::decode_utf16` on
/// the big-endian code units of `data`: the characters, failing on an unpaired
/// surrogate.
#[verifier::external_body]
fn utf16be_chars(data: &[u8]) -> (r: Option<String>)
    ensures
        r is Some <==> utf16_chars(unit_codes(data@)) is Some,
        r matches Some(s) ==> utf16_chars(unit_codes(data@)) == Some(s@),
{
    pdf::font::utf16be_to_char(data).collect::<Result<String, _>>().ok()
}

/// Relies on `std::str::from_utf8`: the text of `data` exactly when it is
/// valid UTF-8.
#[verifier::external_body]
fn utf8_chars(data: &[u8]) -> (r: Option<String>)
    ensures
        r is Some <==> vstd::utf8::valid_utf8(data@),
        r matches Some(s) ==> s@ == vstd::utf8::decode_utf8(data@),
{
    std::str::from_utf8(data).ok().map(String::from)
}

/// Relies on the derived `Clone` of `pdf::font::ToUnicodeMap`.
pub assume_specification[ <ToUnicodeMap as Clone>::clone ](m: &ToUnicodeMap) -> (r: ToUnicodeMap)
    ensures
        r == *m,
;

/// An optional text, with nothing for `None`.
pub open spec fn text_of(o: Option<Seq<char>>) -> Seq<char> {
    match o {
        Some(s) => s,
        None => seq![],
    }
}

/// The concatenated text of a sequence of codes under a table; codes that the
/// table does not map add nothing.
pub open spec fn mapped_text<K>(m: Map<K, Seq<char>>, codes: Seq<K>) -> Seq<char>
    decreases codes.len(),
{
    if codes.len() == 0 {
        seq![]
    } else {
        mapped_text(m, codes.drop_last()) + text_of(entry_of(m, codes.last()))
    }
}

/// Each byte as a code of its own.
pub open spec fn byte_codes(data: Seq<u8>) -> Seq<u16> {
    Seq::new(data.len(), |i: int| data[i] as u16)
}

/// The big-endian two-byte code units of `data`; a trailing odd byte is ignored.
pub open spec fn unit_codes(data: Seq<u8>) -> Seq<u16> {
    Seq::new(data.len() / 2, |k: int| (data[2 * k] as int * 256 + data[2 * k + 1] as int) as u16)
}

/// Whether `data` starts with the UTF-16BE byte-order mark.
pub open spec fn has_bom(data: Seq<u8>) -> bool {
    data.len() >= 2 && data[0] == 0xfe && data[1] == 0xff
}

/// How a font turns string bytes into text.
pub enum Decoder {
    /// One character (or glyph text) per byte, from a base table with overrides.
    DifferenceMap(DifferenceForwardMap),
    /// Codes mapped through a Unicode map.
    UnicodeMap(ToUnicodeMap),
    /// No font: the bytes are UTF-16BE after a byte-order mark, else UTF-8.
    RawBytes,
}

/// The decoding strategy of one font resource.
pub struct FontInfo(pub Decoder);

/// The text of `data` under decoder `d`, or `None` where it cannot be decoded.
pub open spec fn decoded(d: Decoder, data: Seq<u8>) -> Option<Seq<char>> {
    match d {
        Decoder::DifferenceMap(m) => Some(mapped_text(difference_entries(m), data)),
        Decoder::UnicodeMap(m) => Some(
            if has_bom(data) {
                mapped_text(unicode_entries(m), unit_codes(data.subrange(2, data.len() as int)))
            } else {
                mapped_text(unicode_entries(m), byte_codes(data))
            },
        ),
        Decoder::RawBytes => if has_bom(data) {
            utf16be_text(data.subrange(2, data.len() as int))
        } else {
            utf8_text(data)
        },
    }
}

fn difference_text(m: &DifferenceForwardMap, data: &[u8]) -> (r: String)
    ensures
        r@ == mapped_text(difference_entries(*m), data@),
{
    let mut text = String::new();
    let mut i: usize = 0;
    while i < data.len()
        invariant
            i <= data.len(),
            text@ == mapped_text(difference_entries(*m), data@.take(i as int)),
        decreases data.len() - i,
    {
        if let Some(s) = difference_get(m, data[i]) {
            text.append(s.as_str());
        }
        assert(data@.take(i + 1).drop_last() =~= data@.take(i as int));
        i += 1;
    }
    assert(data@.take(data.len() as int) =~= data@);
    text
}

fn unicode_byte_text(m: &ToUnicodeMap, data: &[u8]) -> (r: String)
    ensures
        r@ == mapped_text(unicode_entries(*m), byte_codes(data@)),
{
    let mut text = String::new();
    let mut i: usize = 0;
    while i < data.len()
        invariant
            i <= data.len(),
            text@ == mapped_text(unicode_entries(*m), byte_codes(data@).take(i as int)),
        decreases data.len() - i,
    {
        if let Some(s) = unicode_get(m, data[i] as u16) {
            text.append(s.as_str());
        }
        assert(byte_codes(data@).take(i + 1).drop_last() =~= byte_codes(data@).take(i as int));
        i += 1;
    }
    assert(byte_codes(data@).take(data.len() as int) =~= byte_codes(data@));
    text
}

fn unicode_unit_text(m: &ToUnicodeMap, data: &[u8]) -> (r: String)
    ensures
        r@ == mapped_text(unicode_entries(*m), unit_codes(data@)),
{
    let mut text = String::new();
    let n: usize = data.len() / 2;
    let mut k: usize = 0;
    while k < n
        invariant
            n == data.len() / 2,
            k <= n,
            text@ == mapped_text(unicode_entries(*m), unit_codes(data@).take(k as int)),
        decreases n - k,
    {
        let code: u16 = (data[2 * k] as u16) * 256 + (data[2 * k + 1] as u16);
        if let Some(s) = unicode_get(m, code) {
            text.append(s.as_str());
        }
        assert(unit_codes(data@).take(k + 1).drop_last() =~= unit_codes(data@).take(k as int));
        k += 1;
    }
    assert(unit_codes(data@).take(n as int) =~= unit_codes(data@));
    text
}

impl FontInfo {
    /// The text of the raw bytes of a string drawn in this font.
    pub fn decode(&self, data: &[u8]) -> (r: Result<String, Error>)
        ensures
            r is Ok <==> decoded(self.0, data@) is Some,
            r matches Ok(s) ==> decoded(self.0, data@) == Some(s@),
            r matches Err(e) ==> e == Error::Utf16Decode,
    {
        let bom = data.len() >= 2 && data[0] == 0xfe && data[1] == 0xff;
        match &self.0 {
            Decoder::DifferenceMap(m) => Ok(difference_text(m, data)),
            Decoder::UnicodeMap(m) => {
                if bom {
                    let (_, body) = data.split_at(2);
                    Ok(unicode_unit_text(m, body))
                } else {
                    Ok(unicode_byte_text(m, data))
                }
            },
            Decoder::RawBytes => {
                let decoded = if bom {
                    let (_, body) = data.split_at(2);
                    utf16be_chars(body)
                } else {
                    utf8_chars(data)
                };
                match decoded {
                    Some(s) => Ok(s),
                    None => Err(Error::Utf16Decode),
                }
            },
        }
    }
}

/// The simple encoding of a font: a base table and per-code glyph names.
pub struct SimpleEncoding {
    pub base: BaseEncoding,
    pub differences: HashMap<u32, String>,
}

/// What the decoder of a font is built from.
pub struct FontDesc {
    /// The font's own name, if it declares one.
    pub name: Option<String>,
    /// Its Unicode map, when it declares one that could be read.
    pub to_unicode: Option<ToUnicodeMap>,
    /// Its simple encoding, if it declares one.
    pub encoding: Option<SimpleEncoding>,
}

/// Whether the entries of `m` are those of base table `t` under the glyph names
/// of `differences`.
pub open spec fn built_on(
    m: DifferenceForwardMap,
    t: Option<Map<u8, char>>,
    differences: Map<u32, String>,
) -> bool {
    forall|b: u8|
        #[trigger] entry_of(difference_entries(m), b) == merged_entry(
            t,
            if differences.contains_key(b as u32) {
                glyph_text(differences[b as u32]@)
            } else {
                None
            },
            b,
        )
}

/// Whether the entries of `m` are those of the base table that `e` names,
/// under the glyph names of `e`.
pub open spec fn layered(m: DifferenceForwardMap, e: SimpleEncoding) -> bool {
    built_on(
        m,
        if e.base.has_table() {
            Some(table_chars(e.base))
        } else {
            None
        },
        e.differences@,
    )
}

/// Whether no decoder can be built for a font.
pub open spec fn font_fails(f: FontDesc) -> bool {
    f.to_unicode is None && match f.encoding {
        Some(e) => !e.base.is_supported(),
        None => true,
    }
}

/// Whether `d` is the decoder built for font `f`: its Unicode map if it has
/// one, else its simple encoding layered on the base table it names.
pub open spec fn decoder_of(f: FontDesc, d: Decoder) -> bool {
    match f.to_unicode {
        Some(m) => d == Decoder::UnicodeMap(m),
        None => match f.encoding {
            Some(e) => e.base.is_supported() && match d {
                Decoder::DifferenceMap(m) => layered(m, e),
                _ => false,
            },
            None => false,
        },
    }
}

/// The name that an error reports for a font.
pub open spec fn reported_name(name: Option<String>) -> Seq<char> {
    match name {
        Some(n) => n@,
        None => "MISSING_NAME"@,
    }
}

impl Decoder {
    /// Builds the decoder of a font.
    pub fn from_font(font: &FontDesc) -> (r: Result<Decoder, Error>)
        ensures
            r is Err <==> font_fails(*font),
            r matches Ok(d) ==> decoder_of(*font, d),
            r matches Err(e) ==> match font.encoding {
                Some(enc) => e == Error::UnsupportedEncoding(enc.base),
                None => e matches Error::MissingEncoding(n) && n@ == reported_name(font.name),
            },
    {
        if let Some(m) = &font.to_unicode {
            Ok(Decoder::UnicodeMap(m.clone()))
        } else if let Some(enc) = &font.encoding {
            let base = match base_table(&enc.base) {
                Ok(t) => t,
                Err(e) => return Err(e),
            };
            let m = difference_map(base, &enc.differences);
            let ghost t = match base {
                Some(t) => Some(forward_chars(*t)),
                None => None,
            };
            assert(built_on(m, t, enc.differences@));
            assert(layered(m, *enc));
            Ok(Decoder::DifferenceMap(m))
        } else {
            let name = match &font.name {
                Some(n) => n.clone(),
                None => {
                    proof {
                        reveal_strlit("MISSING_NAME");
                    }
                    String::from_str("MISSING_NAME")
                },
            };
            Err(Error::MissingEncoding(name))
        }
    }
}

impl Clone for FontInfo {
    fn clone(&self) -> (r: Self)
        ensures
            r == *self,
    {
        match &self.0 {
            Decoder::DifferenceMap(m) => FontInfo(Decoder::DifferenceMap(m.clone())),
            Decoder::UnicodeMap(m) => FontInfo(Decoder::UnicodeMap(m.clone())),
            Decoder::RawBytes => FontInfo(Decoder::RawBytes),
        }
    }
}

impl Default for FontInfo {
    /// A font that could not be resolved decodes raw bytes.
    fn default() -> (r: Self)
        ensures
            r == FontInfo(Decoder::RawBytes),
    {
        FontInfo(Decoder::RawBytes)
    }
}

/// An extended graphics state of a page's resources.
pub struct GraphicsState {
    /// The state's resource name.
    pub name: String,
    /// The font it selects, with its size in thousandths of a unit; the font
    /// is `None` where its object could not be resolved.
    pub font: Option<(Option<FontDesc>, i64)>,
}

/// The font resources of a page.
pub struct Resources {
    /// The fonts of the font mapping, by resource name.
    pub fonts: Vec<(String, FontDesc)>,
    pub graphics_states: Vec<GraphicsState>,
}

/// The named fonts that graphics states select, in order.
pub open spec fn state_fonts(gs: Seq<GraphicsState>) -> Seq<(String, FontDesc)>
    decreases gs.len(),
{
    if gs.len() == 0 {
        seq![]
    } else {
        state_fonts(gs.drop_last()) + match gs.last().font {
            Some((Some(f), _)) => match f.name {
                Some(n) => seq![(n, f)],
                None => seq![],
            },
            _ => seq![],
        }
    }
}

/// The fonts that a page's cache is built from: those of the font mapping,
/// then those that graphics states select, under their own names.
pub open spec fn font_candidates(res: Resources) -> Seq<(String, FontDesc)> {
    res.fonts@ + state_fonts(res.graphics_states@)
}

/// Whether `entries` holds, in order, a decoder for each candidate font for
/// which one can be built, under the candidate's name.
pub open spec fn built_from(
    fonts: Seq<(String, FontDesc)>,
    entries: Seq<(String, FontInfo)>,
) -> bool
    decreases fonts.len(),
{
    if fonts.len() == 0 {
        entries.len() == 0
    } else if font_fails(fonts.last().1) {
        built_from(fonts.drop_last(), entries)
    } else {
        &&& entries.len() > 0
        &&& entries.last().0 == fonts.last().0
        &&& decoder_of(fonts.last().1, entries.last().1.0)
        &&& built_from(fonts.drop_last(), entries.drop_last())
    }
}

/// The last entry under `name`, if any.
pub open spec fn last_entry(entries: Seq<(String, FontInfo)>, name: Seq<char>) -> Option<FontInfo>
    decreases entries.len(),
{
    if entries.len() == 0 {
        None
    } else if entries.last().0@ == name {
        Some(entries.last().1)
    } else {
        last_entry(entries.drop_last(), name)
    }
}

/// The last graphics state named `name`, if any.
pub open spec fn last_state(gs: Seq<GraphicsState>, name: Seq<char>) -> Option<GraphicsState>
    decreases gs.len(),
{
    if gs.len() == 0 {
        None
    } else if gs.last().name@ == name {
        Some(gs.last())
    } else {
        last_state(gs.drop_last(), name)
    }
}

/// The decoders of one page's fonts, by name; a later entry under a name
/// replaces an earlier one.
pub struct FontCache {
    pub entries: Vec<(String, FontInfo)>,
}

impl FontCache {
    /// The font that `name` selects: its entry, or raw bytes without one.
    pub open spec fn font_for(&self, name: Seq<char>) -> FontInfo {
        match last_entry(self.entries@, name) {
            Some(f) => f,
            None => FontInfo(Decoder::RawBytes),
        }
    }

    /// The font and size that graphics state `name` selects, if it selects one.
    pub open spec fn state_font(&self, name: Seq<char>, res: Resources) -> Option<(FontInfo, i64)> {
        match last_state(res.graphics_states@, name) {
            Some(g) => match g.font {
                Some((f, size)) => Some(
                    (
                        match f {
                            Some(d) => match d.name {
                                Some(n) => self.font_for(n@),
                                None => FontInfo(Decoder::RawBytes),
                            },
                            None => FontInfo(Decoder::RawBytes),
                        },
                        size,
                    ),
                ),
                None => None,
            },
            None => None,
        }
    }

    /// Builds the cache of a page from its font resources; a font whose decoder
    /// cannot be built is left out.
    pub fn from_page(res: &Resources) -> (r: FontCache)
        ensures
            built_from(font_candidates(*res), r.entries@),
    {
        let mut cache = FontCache { entries: Vec::new() };
        let mut i: usize = 0;
        while i < res.fonts.len()
            invariant
                i <= res.fonts.len(),
                built_from(res.fonts@.take(i as int), cache.entries@),
            decreases res.fonts.len() - i,
        {
            let (name, font) = &res.fonts[i];
            cache.add_font(name, font);
            assert(res.fonts@.take(i + 1).drop_last() =~= res.fonts@.take(i as int));
            i += 1;
        }
        assert(res.fonts@.take(i as int) =~= res.fonts@ + state_fonts(res.graphics_states@.take(0)));
        let mut j: usize = 0;
        while j < res.graphics_states.len()
            invariant
                j <= res.graphics_states.len(),
                built_from(res.fonts@ + state_fonts(res.graphics_states@.take(j as int)), cache.entries@),
            decreases res.graphics_states.len() - j,
        {
            let ghost before = res.fonts@ + state_fonts(res.graphics_states@.take(j as int));
            assert(res.graphics_states@.take(j + 1).drop_last() =~= res.graphics_states@.take(j as int));
            if let Some((Some(font), _)) = &res.graphics_states[j].font {
                if let Some(name) = &font.name {
                    cache.add_font(name, font);
                    assert((before + seq![(*name, *font)]).drop_last() =~= before);
                    assert(res.fonts@ + state_fonts(res.graphics_states@.take(j + 1)) =~= before + seq![(*name, *font)]);
                } else {
                    assert(res.fonts@ + state_fonts(res.graphics_states@.take(j + 1)) =~= before);
                }
            } else {
                assert(res.fonts@ + state_fonts(res.graphics_states@.take(j + 1)) =~= before);
            }
            j += 1;
        }
        assert(res.graphics_states@.take(j as int) =~= res.graphics_states@);
        cache
    }

    /// Adds the decoder of `font` under `name`, unless it cannot be built.
    fn add_font(&mut self, name: &String, font: &FontDesc)
        ensures
            font_fails(*font) ==> final(self).entries@ == old(self).entries@,
            !font_fails(*font) ==> {
                &&& final(self).entries@.len() == old(self).entries@.len() + 1
                &&& final(self).entries@.drop_last() == old(self).entries@
                &&& final(self).entries@.last().0 == *name
                &&& decoder_of(*font, final(self).entries@.last().1.0)
            },
    {
        if let Ok(d) = Decoder::from_font(font) {
            self.entries.push((name.clone(), FontInfo(d)));
            assert(self.entries@.drop_last() =~= old(self).entries@);
        }
    }

    /// The font that `name` selects.
    pub fn get_font(&self, name: &String) -> (r: FontInfo)
        ensures
            r == self.font_for(name@),
    {
        let mut i: usize = self.entries.len();
        assert(self.entries@.take(i as int) =~= self.entries@);
        while i > 0
            invariant
                i <= self.entries.len(),
                last_entry(self.entries@, name@) == last_entry(self.entries@.take(i as int), name@),
            decreases i,
        {
            assert(self.entries@.take(i as int).drop_last() =~= self.entries@.take(i - 1));
            if self.entries[i - 1].0 == *name {
                return self.entries[i - 1].1.clone();
            }
            i -= 1;
        }
        FontInfo::default()
    }

    /// The font and size that the graphics state `name` of `res` selects.
    pub fn get_font_from_graphic_state(&self, name: &String, res: &Resources) -> (r: Option<(FontInfo, i64)>)
        ensures
            r == self.state_font(name@, *res),
    {
        let mut i: usize = res.graphics_states.len();
        assert(res.graphics_states@.take(i as int) =~= res.graphics_states@);
        while i > 0
            invariant
                i <= res.graphics_states.len(),
                last_state(res.graphics_states@, name@) == last_state(res.graphics_states@.take(i as int), name@),
            decreases i,
        {
            assert(res.graphics_states@.take(i as int).drop_last() =~= res.graphics_states@.take(i - 1));
            if res.graphics_states[i - 1].name == *name {
                assert(last_state(res.graphics_states@, name@) == Some(res.graphics_states@[i - 1]));
                let r = match &res.graphics_states[i - 1].font {
                    Some((f, size)) => {
                        let info = match f {
                            Some(d) => match &d.name {
                                Some(n) => self.get_font(n),
                                None => FontInfo::default(),
                            },
                            None => FontInfo::default(),
                        };
                        Some((info, *size))
                    },
                    None => None,
                };
                return r;
            }
            i -= 1;
        }
        None
    }
}

/// Whether two decoders decode alike: difference tables with the same
/// entries, or the same decoder.
pub open spec fn same_decoder(a: Decoder, b: Decoder) -> bool {
    match (a, b) {
        (Decoder::DifferenceMap(x), Decoder::DifferenceMap(y)) => difference_entries(x)
            == difference_entries(y),
        _ => a == b,
    }
}

/// Decoders that decode alike give the same text for every string.
pub proof fn lemma_same_decoder_decodes_alike(a: Decoder, b: Decoder, data: Seq<u8>)
    requires
        same_decoder(a, b),
    ensures
        decoded(a, data) == decoded(b, data),
{
}

/// The decoder of a font is unique, up to the identity of its difference table:
/// two decoders built for one font decode alike.
pub proof fn lemma_decoder_unique(f: FontDesc, a: Decoder, b: Decoder)
    requires
        decoder_of(f, a),
        decoder_of(f, b),
    ensures
        same_decoder(a, b),
{
    if let (Decoder::DifferenceMap(x), Decoder::DifferenceMap(y)) = (a, b) {
        let ex = difference_entries(x);
        let ey = difference_entries(y);
        assert forall|k: u8| #[trigger] ex.contains_key(k) == ey.contains_key(k) && (ex.contains_key(k) ==> ex[k] == ey[k]) by {
            assert(entry_of(ex, k) == entry_of(ey, k));
        }
        assert(ex =~= ey);
    }
}

/// Whether two lists of cache entries hold the same names with decoders that
/// decode alike.
pub open spec fn same_entries(a: Seq<(String, FontInfo)>, b: Seq<(String, FontInfo)>) -> bool {
    &&& a.len() == b.len()
    &&& forall|i: int| 0 <= i < a.len() ==> (#[trigger] a[i]).0 == b[i].0 && same_decoder(a[i].1.0, b[i].1.0)
}

/// Two caches built from the same fonts hold the same names with decoders
/// that decode alike.
pub proof fn lemma_built_unique(fonts: Seq<(String, FontDesc)>, a: Seq<(String, FontInfo)>, b: Seq<(String, FontInfo)>)
    requires
        built_from(fonts, a),
        built_from(fonts, b),
    ensures
        same_entries(a, b),
    decreases fonts.len(),
{
    if fonts.len() > 0 {
        if font_fails(fonts.last().1) {
            lemma_built_unique(fonts.drop_last(), a, b);
        } else {
            lemma_built_unique(fonts.drop_last(), a.drop_last(), b.drop_last());
            lemma_decoder_unique(fonts.last().1, a.last().1.0, b.last().1.0);
            assert forall|i: int| 0 <= i < a.len() implies (#[trigger] a[i]).0 == b[i].0 && same_decoder(a[i].1.0, b[i].1.0) by {
                if i < a.len() - 1 {
                    assert(a[i] == a.drop_last()[i]);
                    assert(b[i] == b.drop_last()[i]);
                }
            }
        }
    }
}

/// Entries that hold the same names with decoders that decode alike select
/// fonts that decode alike.
pub proof fn lemma_lookup_alike(a: Seq<(String, FontInfo)>, b: Seq<(String, FontInfo)>, name: Seq<char>)
    requires
        same_entries(a, b),
    ensures
        last_entry(a, name) is Some == last_entry(b, name) is Some,
        last_entry(a, name) is Some ==> same_decoder((last_entry(a, name)->0).0, (last_entry(b, name)->0).0),
    decreases a.len(),
{
    if a.len() > 0 {
        assert(a.last() == a[a.len() - 1]);
        assert(b.last() == b[b.len() - 1]);
        assert forall|i: int| 0 <= i < a.drop_last().len() implies (#[trigger] a.drop_last()[i]).0 == b.drop_last()[i].0 && same_decoder(a.drop_last()[i].1.0, b.drop_last()[i].1.0) by {
            assert(a.drop_last()[i] == a[i]);
            assert(b.drop_last()[i] == b[i]);
        }
        lemma_lookup_alike(a.drop_last(), b.drop_last(), name);
    }
}

/// A font whose decoder can be built, and which is the last of the page's
/// candidate fonts under its name (from the font mapping or from a graphics
/// state), is what that name selects in a cache built from the page.
pub proof fn lemma_cached_font(res: Resources, c: FontCache, i: int, d: Decoder)
    requires
        built_from(font_candidates(res), c.entries@),
        0 <= i < font_candidates(res).len(),
        forall|j: int| i < j < font_candidates(res).len() ==> (#[trigger] font_candidates(res)[j]).0@ != font_candidates(res)[i].0@,
        decoder_of(font_candidates(res)[i].1, d),
    ensures
        last_entry(c.entries@, font_candidates(res)[i].0@) is Some,
        same_decoder(c.font_for(font_candidates(res)[i].0@).0, d),
{
    lemma_cached_prefix(font_candidates(res), c.entries@, i, d);
}

proof fn lemma_cached_prefix(fonts: Seq<(String, FontDesc)>, e: Seq<(String, FontInfo)>, i: int, d: Decoder)
    requires
        built_from(fonts, e),
        0 <= i < fonts.len(),
        forall|j: int| i < j < fonts.len() ==> (#[trigger] fonts[j]).0@ != fonts[i].0@,
        decoder_of(fonts[i].1, d),
    ensures
        last_entry(e, fonts[i].0@) is Some,
        same_decoder((last_entry(e, fonts[i].0@)->0).0, d),
    decreases fonts.len(),
{
    let name = fonts[i].0@;
    assert(fonts.last() == fonts[fonts.len() - 1]);
    if i == fonts.len() - 1 {
        assert(!font_fails(fonts[i].1));
        lemma_decoder_unique(fonts[i].1, e.last().1.0, d);
    } else {
        let p = fonts.drop_last();
        assert(p[i] == fonts[i]);
        assert forall|j: int| i < j < p.len() implies (#[trigger] p[j]).0@ != p[i].0@ by {
            assert(p[j] == fonts[j]);
        }
        if font_fails(fonts.last().1) {
            lemma_cached_prefix(p, e, i, d);
        } else {
            lemma_cached_prefix(p, e.drop_last(), i, d);
        }
    }
}

} // verus!
