use std::collections::HashMap;

use pdf_title::encoding::BaseEncoding;
use pdf_title::error::Error;
use pdf_title::font::{Decoder, FontCache, FontDesc, GraphicsState, Resources, SimpleEncoding};
use pdf_title::operation::{Operation, TextItem};
use pdf_title::title::{
    largest_text_elements, parse_pdf, Document, Page, PositionedText, TextState,
};

fn no_resources() -> Resources {
    Resources { fonts: Vec::new(), graphics_states: Vec::new() }
}

fn page(ops: Vec<Operation>) -> Page {
    Page { contents: Some(Ok(ops)), resources: no_resources() }
}

fn show(s: &str) -> Operation {
    Operation::ShowText(s.as_bytes().to_vec())
}

fn font(name: &str, size: i64) -> Operation {
    Operation::SetFont(String::from(name), size)
}

fn doc(pages: Vec<Page>) -> Document {
    Document { path: String::from("doc.pdf"), encrypted: false, pages }
}

fn texts(r: &[PositionedText]) -> Vec<(String, i64, i64)> {
    r.iter().map(|p| (p.text.clone(), p.font_size, p.y)).collect()
}

fn titled_page(size: i64, words: &[&str]) -> Page {
    let mut ops = vec![Operation::BeginText, font("F1", size)];
    for w in words {
        ops.push(show(w));
    }
    page(ops)
}

fn winansi_font(name: &str) -> FontDesc {
    FontDesc {
        name: Some(String::from(name)),
        to_unicode: None,
        encoding: Some(SimpleEncoding { base: BaseEncoding::WinAnsi, differences: HashMap::new() }),
    }
}

#[test]
fn text_matrix_then_newline_positions() {
    let p = page(vec![
        Operation::SetTextMatrix(1000, 0, 0, 1000, 0, 100000),
        show("X"),
        Operation::SetLeading(12000),
        Operation::TextNewline,
        show("Y"),
    ]);
    let (runs, max) = largest_text_elements(&p).expect("page");
    assert_eq!(max, 0);
    assert_eq!(
        texts(&runs),
        vec![(String::from("X"), 0, 100000), (String::from("Y"), 0, 88000)]
    );
}

#[test]
fn move_text_position_adds_and_saturates() {
    let p = page(vec![
        Operation::MoveTextPosition(5000, -3000),
        show("a"),
        Operation::MoveTextPosition(0, 0),
        show("b"),
        Operation::SetTextMatrix(0, 0, 0, 0, 0, i64::MAX - 1),
        Operation::MoveTextPosition(0, 5),
        show("c"),
        Operation::BeginText,
        show("d"),
    ]);
    let (runs, _) = largest_text_elements(&p).expect("page");
    let ys: Vec<i64> = runs.iter().map(|r| r.y).collect();
    assert_eq!(ys, vec![-3000, -3000, i64::MAX, 0]);
}

#[test]
fn adjusted_text_wide_gap_inserts_one_space() {
    let state = TextState { font: Default::default(), font_size: 0, leading: 0, y: 0 };
    let items = vec![
        TextItem::Text(b"Hello".to_vec()),
        TextItem::Spacing(-250000),
        TextItem::Text(b"World".to_vec()),
    ];
    let p = PositionedText::from_text_array(&items, &state).expect("text");
    assert_eq!(p.text, "Hello World");
}

#[test]
fn adjusted_text_kerning_inserts_nothing() {
    let state = TextState { font: Default::default(), font_size: 0, leading: 0, y: 0 };
    let items = vec![
        TextItem::Text(b"Hello".to_vec()),
        TextItem::Spacing(-50000),
        TextItem::Text(b"World".to_vec()),
        TextItem::Spacing(-100000),
    ];
    let p = PositionedText::from_text_array(&items, &state).expect("text");
    assert_eq!(p.text, "HelloWorld");
}

#[test]
fn adjusted_text_bad_string_fails() {
    let state = TextState { font: Default::default(), font_size: 0, leading: 0, y: 0 };
    let items = vec![TextItem::Text(b"ok".to_vec()), TextItem::Text(vec![0xff])];
    assert!(matches!(
        PositionedText::from_text_array(&items, &state),
        Err(Error::Utf16Decode)
    ));
}

#[test]
fn from_text_keeps_size_and_line() {
    let state = TextState { font: Default::default(), font_size: 9000, leading: 0, y: 700 };
    let p = PositionedText::from_text(b"hi", &state).expect("text");
    assert_eq!((p.text.as_str(), p.font_size, p.y), ("hi", 9000, 700));
}

#[test]
fn only_largest_size_is_kept() {
    let p = page(vec![
        font("F1", 10000),
        show("small"),
        font("F1", 24000),
        show("Big"),
        Operation::Other,
        font("F1", 10000),
        show("tail"),
        Operation::ShowTextAdjusted(vec![TextItem::Text(b"x".to_vec())]),
        font("F1", 24000),
        Operation::ShowTextAdjusted(vec![
            TextItem::Text(b"Title".to_vec()),
            TextItem::Spacing(-300000),
            TextItem::Text(b"Two".to_vec()),
        ]),
    ]);
    let (runs, max) = largest_text_elements(&p).expect("page");
    assert_eq!(max, 24000);
    let t: Vec<String> = runs.iter().map(|r| r.text.clone()).collect();
    assert_eq!(t, vec![String::from("Big"), String::from("Title Two")]);
}

#[test]
fn page_errors() {
    let empty = Page { contents: None, resources: no_resources() };
    assert!(matches!(largest_text_elements(&empty), Err(Error::NoContent)));
    let bad = Page { contents: Some(Err(String::from("bad stream"))), resources: no_resources() };
    match largest_text_elements(&bad) {
        Err(Error::ContentDecode(m)) => assert_eq!(m, "bad stream"),
        _ => panic!("expected a decode error"),
    }
    let bad_text = page(vec![Operation::ShowText(vec![0xc3])]);
    assert!(matches!(largest_text_elements(&bad_text), Err(Error::Utf16Decode)));
}

#[test]
fn zero_pages_give_empty_title() {
    assert_eq!(parse_pdf(&doc(Vec::new()), 5), Ok(String::new()));
    assert_eq!(parse_pdf(&doc(vec![titled_page(12000, &["a"])]), 0), Ok(String::new()));
}

#[test]
fn encrypted_document_fails() {
    let d = Document { path: String::from("secret.pdf"), encrypted: true, pages: Vec::new() };
    assert_eq!(parse_pdf(&d, 3), Err(Error::Encrypted(String::from("secret.pdf"))));
}

#[test]
fn unique_largest_page_gives_title() {
    let d = doc(vec![
        titled_page(12000, &["body"]),
        titled_page(24000, &["The", "Title"]),
        titled_page(18000, &["section"]),
    ]);
    assert_eq!(parse_pdf(&d, 3), Ok(String::from("The Title")));
}

#[test]
fn tie_keeps_earlier_page() {
    let d = doc(vec![titled_page(20000, &["First"]), titled_page(20000, &["Second"])]);
    assert_eq!(parse_pdf(&d, 2), Ok(String::from("First")));
}

#[test]
fn page_limit_is_respected() {
    let d = doc(vec![titled_page(10000, &["one"]), titled_page(30000, &["two"])]);
    assert_eq!(parse_pdf(&d, 1), Ok(String::from("one")));
    assert_eq!(parse_pdf(&d, 10), Ok(String::from("two")));
}

#[test]
fn undecodable_page_is_skipped() {
    let bad = Page { contents: Some(Err(String::from("garbage"))), resources: no_resources() };
    let with_bad = doc(vec![titled_page(10000, &["low"]), bad, titled_page(14000, &["high"])]);
    let without = doc(vec![titled_page(10000, &["low"]), titled_page(14000, &["high"])]);
    assert_eq!(parse_pdf(&with_bad, 3), Ok(String::from("high")));
    assert_eq!(parse_pdf(&with_bad, 3), parse_pdf(&without, 2));
}

#[test]
fn font_cache_lookups() {
    let res = Resources {
        fonts: vec![
            (String::from("F1"), winansi_font("Arial")),
            (String::from("F2"), FontDesc { name: None, to_unicode: None, encoding: None }),
        ],
        graphics_states: vec![GraphicsState {
            name: String::from("GS1"),
            font: Some((Some(winansi_font("Times")), 15000)),
        }],
    };
    let cache = FontCache::from_page(&res);
    let names: Vec<&str> = cache.entries.iter().map(|(n, _)| n.as_str()).collect();
    assert_eq!(names, vec!["F1", "Times"]);
    assert!(matches!(cache.get_font(&String::from("F1")).0, Decoder::DifferenceMap(_)));
    assert!(matches!(cache.get_font(&String::from("F2")).0, Decoder::RawBytes));
    let (f, size) = cache
        .get_font_from_graphic_state(&String::from("GS1"), &res)
        .expect("state font");
    assert_eq!(size, 15000);
    assert!(matches!(f.0, Decoder::DifferenceMap(_)));
    assert!(cache.get_font_from_graphic_state(&String::from("GS9"), &res).is_none());
}

#[test]
fn graphics_state_font_sets_size_and_decoder() {
    let res = Resources {
        fonts: Vec::new(),
        graphics_states: vec![GraphicsState {
            name: String::from("GS1"),
            font: Some((Some(winansi_font("Times")), 30000)),
        }],
    };
    let p = Page {
        contents: Some(Ok(vec![
            show("plain"),
            Operation::SetGraphicsStateFont(String::from("GS1")),
            Operation::ShowText(vec![0x80]),
            Operation::SetGraphicsStateFont(String::from("none")),
            Operation::ShowText(vec![0x41]),
        ])),
        resources: res,
    };
    let (runs, max) = largest_text_elements(&p).expect("page");
    assert_eq!(max, 30000);
    assert_eq!(
        texts(&runs),
        vec![(String::from("\u{20ac}"), 30000, 0), (String::from("A"), 30000, 0)]
    );
}

#[test]
fn cached_font_decodes_as_built_decoder() {
    let desc = winansi_font("Times");
    let res = Resources {
        fonts: Vec::new(),
        graphics_states: vec![GraphicsState { name: String::from("GS1"), font: Some((Some(desc), 9000)) }],
    };
    let cache = FontCache::from_page(&res);
    let built = pdf_title::font::FontInfo(Decoder::from_font(&winansi_font("Times")).expect("decoder"));
    let cached = cache.get_font(&String::from("Times"));
    let bytes = [0x41u8, 0x80, 0x93, 0xe9];
    assert_eq!(cached.decode(&bytes), built.decode(&bytes));
    assert_eq!(cached.decode(&bytes), Ok(String::from("A\u{20ac}\u{201c}\u{e9}")));
}

#[test]
fn other_operators_are_ignored() {
    let plain = page(vec![font("F1", 12000), show("a"), show("b")]);
    let noisy = page(vec![
        Operation::Other,
        font("F1", 12000),
        Operation::Other,
        show("a"),
        Operation::Other,
        Operation::Other,
        show("b"),
        Operation::Other,
    ]);
    let a = largest_text_elements(&plain).expect("page");
    let b = largest_text_elements(&noisy).expect("page");
    assert_eq!(a.1, b.1);
    assert_eq!(texts(&a.0), texts(&b.0));
}
