use std::collections::HashMap;

use pdf::font::ToUnicodeMap;
use pdf_title::encoding::BaseEncoding;
use pdf_title::error::Error;
use pdf_title::font::{Decoder, FontDesc, FontInfo, SimpleEncoding};

fn unicode_font(pairs: &[(u16, &str)]) -> FontInfo {
    let mut map = ToUnicodeMap::new();
    for (code, text) in pairs {
        map.insert(*code, (*text).into());
    }
    FontInfo(Decoder::UnicodeMap(map))
}

fn simple_font(base: BaseEncoding, differences: &[(u32, &str)]) -> FontDesc {
    FontDesc {
        name: Some(String::from("F1")),
        to_unicode: None,
        encoding: Some(SimpleEncoding {
            base,
            differences: differences
                .iter()
                .map(|(k, v)| (*k, String::from(*v)))
                .collect::<HashMap<u32, String>>(),
        }),
    }
}

fn built(font: &FontDesc) -> FontInfo {
    FontInfo(Decoder::from_font(font).expect("decoder"))
}

#[test]
fn unicode_map_with_bom_reads_code_units() {
    let font = unicode_font(&[(0x41, "A")]);
    assert_eq!(font.decode(&[0xfe, 0xff, 0x00, 0x41]), Ok(String::from("A")));
}

#[test]
fn raw_bytes_with_bom_read_as_utf16be() {
    let font = FontInfo::default();
    assert_eq!(font.decode(&[0xfe, 0xff, 0x00, 0x41]), Ok(String::from("A")));
}

#[test]
fn unicode_map_without_bom_reads_single_bytes() {
    let font = unicode_font(&[(0x41, "A"), (0x42, "Bee")]);
    assert_eq!(font.decode(&[0x41, 0x43, 0x42]), Ok(String::from("ABee")));
}

#[test]
fn unicode_map_two_byte_codes_and_odd_tail() {
    let font = unicode_font(&[(0x0102, "x"), (0xfeff, "bom")]);
    assert_eq!(font.decode(&[0xfe, 0xff, 0x01, 0x02, 0x01, 0x02, 0x01]), Ok(String::from("xx")));
}

#[test]
fn raw_bytes_utf8() {
    let font = FontInfo::default();
    assert_eq!(font.decode("héllo".as_bytes()), Ok(String::from("héllo")));
    assert_eq!(font.decode(&[]), Ok(String::new()));
}

#[test]
fn raw_bytes_invalid_utf8_fails() {
    assert_eq!(FontInfo::default().decode(&[0x41, 0xff]), Err(Error::Utf16Decode));
}

#[test]
fn raw_bytes_unpaired_surrogate_fails() {
    assert_eq!(FontInfo::default().decode(&[0xfe, 0xff, 0xd8, 0x00]), Err(Error::Utf16Decode));
}

#[test]
fn difference_map_without_base_maps_only_overrides() {
    let font = built(&simple_font(BaseEncoding::Unspecified, &[(65, "Z")]));
    assert_eq!(font.decode(&[0x41]), Ok(String::from("Z")));
    let others: Vec<u8> = (0..=255u8).filter(|b| *b != 0x41).collect();
    assert_eq!(font.decode(&others), Ok(String::new()));
}

#[test]
fn difference_map_on_standard_base() {
    let font = built(&simple_font(BaseEncoding::Standard, &[(66, "Alpha")]));
    assert_eq!(font.decode(b"ABC"), Ok(String::from("A\u{391}C")));
}

#[test]
fn difference_map_unknown_glyph_keeps_base() {
    let font = built(&simple_font(BaseEncoding::WinAnsi, &[(0x41, "no-such-glyph")]));
    assert_eq!(font.decode(&[0x41, 0x80]), Ok(String::from("A\u{20ac}")));
}

#[test]
fn mac_roman_and_symbol_bases() {
    let mac = built(&simple_font(BaseEncoding::MacRoman, &[]));
    assert_eq!(mac.decode(&[0x80]), Ok(String::from("\u{c4}")));
    let symbol = built(&simple_font(BaseEncoding::Symbol, &[]));
    assert_eq!(symbol.decode(&[0x61]), Ok(String::from("\u{3b1}")));
}

#[test]
fn unicode_map_wins_over_encoding() {
    let mut map = ToUnicodeMap::new();
    map.insert(0x41, "Q".into());
    let mut font = simple_font(BaseEncoding::Standard, &[]);
    font.to_unicode = Some(map);
    let info = built(&font);
    assert!(matches!(info.0, Decoder::UnicodeMap(_)));
    assert_eq!(info.decode(b"A"), Ok(String::from("Q")));
}

#[test]
fn unsupported_base_encoding_fails() {
    let font = simple_font(BaseEncoding::MacExpert, &[]);
    assert!(matches!(
        Decoder::from_font(&font),
        Err(Error::UnsupportedEncoding(BaseEncoding::MacExpert))
    ));
    let other = simple_font(BaseEncoding::Other(String::from("Custom")), &[]);
    match Decoder::from_font(&other) {
        Err(Error::UnsupportedEncoding(BaseEncoding::Other(n))) => assert_eq!(n, "Custom"),
        _ => panic!("expected an unsupported encoding"),
    }
}

#[test]
fn missing_encoding_names_the_font() {
    let named = FontDesc { name: Some(String::from("Helv")), to_unicode: None, encoding: None };
    match Decoder::from_font(&named) {
        Err(Error::MissingEncoding(n)) => assert_eq!(n, "Helv"),
        _ => panic!("expected a missing encoding"),
    }
    let unnamed = FontDesc { name: None, to_unicode: None, encoding: None };
    match Decoder::from_font(&unnamed) {
        Err(Error::MissingEncoding(n)) => assert_eq!(n, "MISSING_NAME"),
        _ => panic!("expected a missing encoding"),
    }
}
