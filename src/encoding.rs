//! The single-byte base encodings and the difference tables built on them.
use std::collections::HashMap;

use pdf_encoding::{DifferenceForwardMap, ForwardMap};
use vstd::prelude::*;

use crate::error::Error;

verus! {

#[verifier::external_type_specification]
#[verifier::external_body]
pub struct ExForwardMap(ForwardMap);

#[verifier::external_type_specification]
#[verifier::external_body]
pub struct ExDifferenceForwardMap(DifferenceForwardMap);

/// The character that a base table gives each byte that it maps.
pub uninterp spec fn forward_chars(m: ForwardMap) -> Map<u8, char>;

/// The characters of the base table of a base encoding.
pub uninterp spec fn table_chars(kind: BaseEncoding) -> Map<u8, char>;

/// The text of a glyph name in the Adobe glyph list, if the name is listed.
pub uninterp spec fn glyph_text(name: Seq<char>) -> Option<Seq<char>>;

/// The text that a difference table holds for each byte that it maps.
pub uninterp spec fn difference_entries(m: DifferenceForwardMap) -> Map<u8, Seq<char>>;

/// The base encoding that a simple font declares.
#[derive(Debug, PartialEq, Eq)]
pub enum BaseEncoding {
    Standard,
    Symbol,
    MacRoman,
    WinAnsi,
    MacExpert,
    IdentityH,
    /// The font declares no base encoding.
    Unspecified,
    Other(String),
}

impl Clone for BaseEncoding {
    fn clone(&self) -> (r: Self)
        ensures
            r == *self,
    {
        match self {
            BaseEncoding::Standard => BaseEncoding::Standard,
            BaseEncoding::Symbol => BaseEncoding::Symbol,
            BaseEncoding::MacRoman => BaseEncoding::MacRoman,
            BaseEncoding::WinAnsi => BaseEncoding::WinAnsi,
            BaseEncoding::MacExpert => BaseEncoding::MacExpert,
            BaseEncoding::IdentityH => BaseEncoding::IdentityH,
            BaseEncoding::Unspecified => BaseEncoding::Unspecified,
            BaseEncoding::Other(s) => BaseEncoding::Other(s.clone()),
        }
    }
}

impl BaseEncoding {
    /// The four base encodings that have a table.
    pub open spec fn has_table(&self) -> bool {
        ||| *self is Standard
        ||| *self is Symbol
        ||| *self is MacRoman
        ||| *self is WinAnsi
    }

    /// Base encodings that a font may declare: the four with a table, or none.
    pub open spec fn is_supported(&self) -> bool {
        self.has_table() || *self is Unspecified
    }
}

/// Relies on the static `pdf_encoding::STANDARD`, the Adobe standard table.
#[verifier::external_body]
fn standard_table() -> (r: &'static ForwardMap)
    ensures
        forward_chars(*r) == table_chars(BaseEncoding::Standard),
{
    &pdf_encoding::STANDARD
}

/// Relies on the static `pdf_encoding::SYMBOL`, the Adobe symbol table.
#[verifier::external_body]
fn symbol_table() -> (r: &'static ForwardMap)
    ensures
        forward_chars(*r) == table_chars(BaseEncoding::Symbol),
{
    &pdf_encoding::SYMBOL
}

/// Relies on the static `pdf_encoding::MACROMAN`, the Mac Roman table.
#[verifier::external_body]
fn mac_roman_table() -> (r: &'static ForwardMap)
    ensures
        forward_chars(*r) == table_chars(BaseEncoding::MacRoman),
{
    &pdf_encoding::MACROMAN
}

/// Relies on the static `pdf_encoding::WINANSI`, the Windows ANSI table.
#[verifier::external_body]
fn win_ansi_table() -> (r: &'static ForwardMap)
    ensures
        forward_chars(*r) == table_chars(BaseEncoding::WinAnsi),
{
    &pdf_encoding::WINANSI
}

/// The table of a base encoding: `None` when the font declares no base
/// encoding, an error for a base encoding without a table.
pub fn base_table(kind: &BaseEncoding) -> (r: Result<Option<&'static ForwardMap>, Error>)
    ensures
        r is Ok <==> kind.is_supported(),
        r matches Ok(t) ==> (t is Some <==> kind.has_table()),
        r matches Ok(Some(t)) ==> forward_chars(*t) == table_chars(*kind),
        r matches Err(e) ==> e == Error::UnsupportedEncoding(*kind),
{
    match kind {
        BaseEncoding::Standard => Ok(Some(standard_table())),
        BaseEncoding::Symbol => Ok(Some(symbol_table())),
        BaseEncoding::MacRoman => Ok(Some(mac_roman_table())),
        BaseEncoding::WinAnsi => Ok(Some(win_ansi_table())),
        BaseEncoding::Unspecified => Ok(None),
        _ => Err(Error::UnsupportedEncoding(kind.clone())),
    }
}

/// What a table holds for one key, if anything.
pub open spec fn entry_of<K, V>(m: Map<K, V>, k: K) -> Option<V> {
    if m.contains_key(k) {
        Some(m[k])
    } else {
        None
    }
}

/// The text of byte `b` under a base table with per-code overrides: the text
/// of the byte's glyph name, when there is one, wins over the base table.
pub open spec fn merged_entry(
    base: Option<Map<u8, char>>,
    glyph: Option<Seq<char>>,
    b: u8,
) -> Option<Seq<char>> {
    if glyph is Some {
        glyph
    } else {
        match base {
            Some(t) => if t.contains_key(b) {
                Some(seq![t[b]])
            } else {
                None
            },
            None => None,
        }
    }
}

/// Relies on `pdf_encoding::DifferenceForwardMap::new`: each byte takes the
/// text of its glyph name in `differences` when the glyph list knows that name,
/// else the character of the base table, else nothing.
#[verifier::external_body]
pub(crate) fn difference_map(
    base: Option<&'static ForwardMap>,
    differences: &HashMap<u32, String>,
) -> (r: DifferenceForwardMap)
    ensures
        forall|b: u8|
            #[trigger] entry_of(difference_entries(r), b) == merged_entry(
                match base {
                    Some(t) => Some(forward_chars(*t)),
                    None => None,
                },
                if differences@.contains_key(b as u32) {
                    glyph_text(differences@[b as u32]@)
                } else {
                    None
                },
                b,
            ),
{
    DifferenceForwardMap::new(base, differences.clone())
}

/// Relies on `pdf_encoding::DifferenceForwardMap::get`: the text stored for a byte.
#[verifier::external_body]
pub(crate) fn difference_get(m: &DifferenceForwardMap, b: u8) -> (r: Option<String>)
    ensures
        r is Some <==> difference_entries(*m).contains_key(b),
        r matches Some(s) ==> s@ == difference_entries(*m)[b],
{
    m.get(b).cloned()
}

/// Relies on the derived `Clone` of `pdf_encoding::DifferenceForwardMap`.
pub assume_specification[ <DifferenceForwardMap as Clone>::clone ](
    m: &DifferenceForwardMap,
) -> (r: DifferenceForwardMap)
    ensures
        r == *m,
;

} // verus!
