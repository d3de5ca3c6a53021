//! Interprets the operators of each page and picks the text drawn at the
//! largest font size as the title.
use vstd::prelude::*;

use crate::error::Error;
use crate::encoding::glyph_text;
use crate::font::{
    built_from, decoded, decoder_of, font_candidates, last_entry, lemma_built_unique,
    lemma_lookup_alike, lemma_same_decoder_decodes_alike, mapped_text, same_decoder, same_entries,
    text_of, Decoder, FontCache, FontDesc, FontInfo, Resources,
};
use crate::operation::{Operation, TextItem};

verus! {

/// Spacing adjustments below this, in thousandths of glyph space, separate words.
pub const WORD_GAP: i64 = -100000;

/// The typographic state while a page's operators are read.
pub struct TextState {
    pub font: FontInfo,
    /// Font size, in thousandths of a unit.
    pub font_size: i64,
    /// Leading, in thousandths of a unit.
    pub leading: i64,
    /// Vertical position of the text line, in thousandths of a unit.
    pub y: i64,
}

/// Text drawn by one operator, with the font size and line it was drawn at.
pub struct PositionedText {
    pub text: String,
    pub font_size: i64,
    pub y: i64,
}

/// A drawn text as plain values: its characters, font size and line.
pub type Run = (Seq<char>, i64, i64);

impl View for PositionedText {
    type V = Run;

    open spec fn view(&self) -> Run {
        (self.text@, self.font_size, self.y)
    }
}

/// The plain values of a list of drawn texts.
pub open spec fn runs_of(v: Seq<PositionedText>) -> Seq<Run> {
    v.map_values(|p: PositionedText| p@)
}

/// An integer held to the range of `i64`.
pub open spec fn clamp(x: int) -> i64 {
    if x > i64::MAX {
        i64::MAX
    } else if x < i64::MIN {
        i64::MIN
    } else {
        x as i64
    }
}

/// The state at the start of a page.
pub open spec fn initial_state() -> TextState {
    TextState { font: FontInfo(Decoder::RawBytes), font_size: 0, leading: 0, y: 0 }
}

/// The state moved vertically by `dy`; a zero move changes nothing.
pub open spec fn moved(st: TextState, dy: int) -> TextState {
    if dy == 0 {
        st
    } else {
        TextState { y: clamp(st.y + dy), ..st }
    }
}

/// The text of a text array: each string decoded, and a space for each
/// spacing below the word gap; `None` where a string cannot be decoded.
pub open spec fn adjusted_text(d: Decoder, items: Seq<TextItem>) -> Option<Seq<char>>
    decreases items.len(),
{
    if items.len() == 0 {
        Some(seq![])
    } else {
        match adjusted_text(d, items.drop_last()) {
            None => None,
            Some(prev) => match items.last() {
                TextItem::Text(b) => match decoded(d, b@) {
                    Some(t) => Some(prev + t),
                    None => None,
                },
                TextItem::Spacing(s) => Some(
                    if s < WORD_GAP {
                        prev + seq![' ']
                    } else {
                        prev
                    },
                ),
            },
        }
    }
}

/// The largest of two sizes.
pub open spec fn raised(max: i64, size: i64) -> i64 {
    if size > max {
        size
    } else {
        max
    }
}

/// One operator applied to the state and the running maximum font size, with
/// the text it draws; `None` where a string cannot be decoded.
pub open spec fn step(
    st: TextState,
    max: i64,
    op: Operation,
    cache: FontCache,
    res: Resources,
) -> Option<(TextState, i64, Option<Run>)> {
    match op {
        Operation::BeginText => Some(
            (TextState { font_size: 0, leading: 0, y: 0, ..st }, max, None),
        ),
        Operation::SetLeading(a) => Some((TextState { leading: a, ..st }, max, None)),
        Operation::SetFont(name, size) => Some(
            (TextState { font: cache.font_for(name@), font_size: size, ..st }, raised(max, size), None),
        ),
        Operation::SetGraphicsStateFont(name) => match cache.state_font(name@, res) {
            Some((f, size)) => Some(
                (TextState { font: f, font_size: size, ..st }, raised(max, size), None),
            ),
            None => Some((st, max, None)),
        },
        Operation::MoveTextPosition(_, dy) => Some((moved(st, dy as int), max, None)),
        Operation::SetTextMatrix(_, _, _, _, _, f) => Some((TextState { y: f, ..st }, max, None)),
        Operation::TextNewline => Some((moved(st, -(st.leading as int)), max, None)),
        Operation::ShowText(b) => match decoded(st.font.0, b@) {
            Some(t) => Some((st, max, Some((t, st.font_size, st.y)))),
            None => None,
        },
        Operation::ShowTextAdjusted(items) => match adjusted_text(st.font.0, items@) {
            Some(t) => Some((st, max, Some((t, st.font_size, st.y)))),
            None => None,
        },
        Operation::Other => Some((st, max, None)),
    }
}

/// The state, the maximum font size and the drawn texts after a page's
/// operators; `None` where a string cannot be decoded.
pub open spec fn page_run(
    ops: Seq<Operation>,
    cache: FontCache,
    res: Resources,
) -> Option<(TextState, i64, Seq<Run>)>
    decreases ops.len(),
{
    if ops.len() == 0 {
        Some((initial_state(), 0, seq![]))
    } else {
        match page_run(ops.drop_last(), cache, res) {
            None => None,
            Some((st, max, runs)) => match step(st, max, ops.last(), cache, res) {
                None => None,
                Some((st2, max2, drawn)) => Some(
                    (
                        st2,
                        max2,
                        match drawn {
                            Some(x) => runs.push(x),
                            None => runs,
                        },
                    ),
                ),
            },
        }
    }
}

/// Moves the text line by `dy`, holding `y` to the range of `i64`.
fn translate_text(state: &mut TextState, dy: i64)
    ensures
        *final(state) == moved(*old(state), dy as int),
{
    if dy != 0 {
        state.y = match state.y.checked_add(dy) {
            Some(v) => v,
            None => if dy > 0 {
                i64::MAX
            } else {
                i64::MIN
            },
        };
    }
}

/// Moves to the next text line, one leading down.
fn next_line(state: &mut TextState)
    ensures
        *final(state) == moved(*old(state), -(old(state).leading as int)),
{
    let lead = state.leading;
    if lead != 0 {
        state.y = match state.y.checked_sub(lead) {
            Some(v) => v,
            None => if lead < 0 {
                i64::MAX
            } else {
                i64::MIN
            },
        };
    }
}

impl PositionedText {
    /// The text that a string draws in the current state.
    pub fn from_text(text: &[u8], state: &TextState) -> (r: Result<PositionedText, Error>)
        ensures
            r is Ok <==> decoded(state.font.0, text@) is Some,
            r matches Ok(p) ==> p@ == (decoded(state.font.0, text@)->0, state.font_size, state.y),
            r matches Err(e) ==> e == Error::Utf16Decode,
    {
        match state.font.decode(text) {
            Ok(t) => Ok(PositionedText { text: t, font_size: state.font_size, y: state.y }),
            Err(e) => Err(e),
        }
    }

    /// The text that a text array draws in the current state.
    pub fn from_text_array(items: &Vec<TextItem>, state: &TextState) -> (r: Result<PositionedText, Error>)
        ensures
            r is Ok <==> adjusted_text(state.font.0, items@) is Some,
            r matches Ok(p) ==> p@ == (adjusted_text(state.font.0, items@)->0, state.font_size, state.y),
            r matches Err(e) ==> e == Error::Utf16Decode,
    {
        let mut text = String::new();
        let mut j: usize = 0;
        while j < items.len()
            invariant
                j <= items.len(),
                adjusted_text(state.font.0, items@.take(j as int)) == Some(text@),
            decreases items.len() - j,
        {
            assert(items@.take(j + 1).drop_last() =~= items@.take(j as int));
            match &items[j] {
                TextItem::Text(b) => {
                    match state.font.decode(b.as_slice()) {
                        Ok(t) => text.append(t.as_str()),
                        Err(e) => {
                            assert(adjusted_text(state.font.0, items@.take(j + 1)) is None);
                            proof {
                                lemma_adjusted_prefix_fails(state.font.0, items@, j + 1);
                            }
                            return Err(e);
                        },
                    }
                },
                TextItem::Spacing(sp) => {
                    if *sp < WORD_GAP {
                        proof {
                            reveal_strlit(" ");
                        }
                        text.append(" ");
                    }
                },
            }
            j += 1;
        }
        assert(items@.take(j as int) =~= items@);
        Ok(PositionedText { text, font_size: state.font_size, y: state.y })
    }
}

/// A text array whose prefix cannot be decoded cannot be decoded whole.
proof fn lemma_adjusted_prefix_fails(d: Decoder, items: Seq<TextItem>, k: int)
    requires
        0 <= k <= items.len(),
        adjusted_text(d, items.take(k)) is None,
    ensures
        adjusted_text(d, items) is None,
    decreases items.len() - k,
{
    if k < items.len() {
        assert(items.take(k + 1).drop_last() =~= items.take(k));
        lemma_adjusted_prefix_fails(d, items, k + 1);
    } else {
        assert(items.take(k) =~= items);
    }
}

/// A page as the extraction reads it.
pub struct Page {
    /// Its operators: `None` where the page has no content stream, an error
    /// message where the stream could not be decoded.
    pub contents: Option<Result<Vec<Operation>, String>>,
    pub resources: Resources,
}

/// The drawn texts at font size `max`, in order.
pub open spec fn largest_runs(runs: Seq<Run>, max: i64) -> Seq<Run>
    decreases runs.len(),
{
    if runs.len() == 0 {
        seq![]
    } else if runs.last().1 == max {
        largest_runs(runs.drop_last(), max).push(runs.last())
    } else {
        largest_runs(runs.drop_last(), max)
    }
}

/// What reading a page gives with a font cache: the texts drawn at the
/// page's largest font size and that size, or why the page is skipped.
pub open spec fn page_outcome(page: Page, cache: FontCache) -> Result<(Seq<Run>, i64), Error> {
    match page.contents {
        None => Err(Error::NoContent),
        Some(Err(m)) => Err(Error::ContentDecode(m)),
        Some(Ok(ops)) => match page_run(ops@, cache, page.resources) {
            None => Err(Error::Utf16Decode),
            Some((_, max, runs)) => Ok((largest_runs(runs, max), max)),
        },
    }
}

/// Whether an executable result is the outcome `o`.
pub open spec fn gives(r: Result<(Vec<PositionedText>, i64), Error>, o: Result<(Seq<Run>, i64), Error>) -> bool {
    match r {
        Ok((v, m)) => o == Ok::<(Seq<Run>, i64), Error>((runs_of(v@), m)),
        Err(e) => o == Err::<(Seq<Run>, i64), Error>(e),
    }
}

/// Whether `r` is what reading `page` gives with a font cache built from its
/// resources.
pub open spec fn read_page(page: Page, r: Result<(Vec<PositionedText>, i64), Error>) -> bool {
    exists|c: FontCache|
        built_from(font_candidates(page.resources), c.entries@) && gives(
            r,
            #[trigger] page_outcome(page, c),
        )
}

/// The plain values of a page's result.
pub open spec fn result_view(r: Result<(Vec<PositionedText>, i64), Error>) -> Result<(Seq<Run>, i64), Error> {
    match r {
        Ok((v, m)) => Ok((runs_of(v@), m)),
        Err(e) => Err(e),
    }
}

/// The texts drawn at a page's largest font size, and that size.
pub fn largest_text_elements(page: &Page) -> (r: Result<(Vec<PositionedText>, i64), Error>)
    ensures
        read_page(*page, r),
{
    let cache = FontCache::from_page(&page.resources);
    let r = interpret(page, &cache);
    assert(built_from(font_candidates(page.resources), cache.entries@) && gives(r, page_outcome(*page, cache)));
    r
}

fn interpret(page: &Page, cache: &FontCache) -> (r: Result<(Vec<PositionedText>, i64), Error>)
    ensures
        gives(r, page_outcome(*page, *cache)),
{
    let ops = match &page.contents {
        None => return Err(Error::NoContent),
        Some(Err(m)) => return Err(Error::ContentDecode(m.clone())),
        Some(Ok(ops)) => ops,
    };
    let res = &page.resources;
    let mut state = TextState { font: FontInfo::default(), font_size: 0, leading: 0, y: 0 };
    let mut max_font_size: i64 = 0;
    let mut positioned: Vec<PositionedText> = Vec::new();
    let mut i: usize = 0;
    while i < ops.len()
        invariant
            i <= ops.len(),
            page.contents == Some(Ok::<Vec<Operation>, String>(*ops)),
            *res == page.resources,
            page_run(ops@.take(i as int), *cache, *res) == Some(
                (state, max_font_size, runs_of(positioned@)),
            ),
        decreases ops.len() - i,
    {
        assert(ops@.take(i + 1).drop_last() =~= ops@.take(i as int));
        let ghost before = positioned@;
        match &ops[i] {
            Operation::BeginText => {
                state.font_size = 0;
                state.leading = 0;
                state.y = 0;
            },
            Operation::SetLeading(a) => {
                state.leading = *a;
            },
            Operation::SetGraphicsStateFont(name) => {
                if let Some((font, size)) = cache.get_font_from_graphic_state(name, res) {
                    state.font = font;
                    state.font_size = size;
                    if size > max_font_size {
                        max_font_size = size;
                    }
                }
            },
            Operation::SetFont(name, size) => {
                state.font = cache.get_font(name);
                state.font_size = *size;
                if *size > max_font_size {
                    max_font_size = *size;
                }
            },
            Operation::MoveTextPosition(_, dy) => {
                translate_text(&mut state, *dy);
            },
            Operation::SetTextMatrix(_, _, _, _, _, f) => {
                state.y = *f;
            },
            Operation::TextNewline => {
                next_line(&mut state);
            },
            Operation::ShowText(b) => {
                match PositionedText::from_text(b.as_slice(), &state) {
                    Ok(p) => {
                        positioned.push(p);
                        assert(runs_of(positioned@) =~= runs_of(before).push(p@));
                    },
                    Err(e) => {
                        assert(ops@.take(i + 1).last() == ops@[i as int]);
                        proof {
                            lemma_run_prefix_fails(ops@, *cache, *res, i + 1);
                        }
                        return Err(e);
                    },
                }
            },
            Operation::ShowTextAdjusted(items) => {
                match PositionedText::from_text_array(items, &state) {
                    Ok(p) => {
                        positioned.push(p);
                        assert(runs_of(positioned@) =~= runs_of(before).push(p@));
                    },
                    Err(e) => {
                        assert(ops@.take(i + 1).last() == ops@[i as int]);
                        assert(page_run(ops@.take(i + 1), *cache, *res) is None);
                        proof {
                            lemma_run_prefix_fails(ops@, *cache, *res, i + 1);
                        }
                        return Err(e);
                    },
                }
            },
            Operation::Other => {},
        }
        i += 1;
    }
    assert(ops@.take(i as int) =~= ops@);
    let mut largest: Vec<PositionedText> = Vec::new();
    let mut k: usize = 0;
    while k < positioned.len()
        invariant
            k <= positioned.len(),
            page.contents == Some(Ok::<Vec<Operation>, String>(*ops)),
            *res == page.resources,
            page_run(ops@, *cache, *res) == Some((state, max_font_size, runs_of(positioned@))),
            runs_of(largest@) == largest_runs(runs_of(positioned@).take(k as int), max_font_size),
        decreases positioned.len() - k,
    {
        assert(runs_of(positioned@).take(k + 1).drop_last() =~= runs_of(positioned@).take(k as int));
        let ghost before = largest@;
        if positioned[k].font_size == max_font_size {
            let p = PositionedText {
                text: positioned[k].text.clone(),
                font_size: positioned[k].font_size,
                y: positioned[k].y,
            };
            largest.push(p);
            assert(runs_of(largest@) =~= runs_of(before).push(p@));
        }
        k += 1;
    }
    assert(runs_of(positioned@).take(k as int) =~= runs_of(positioned@));
    Ok((largest, max_font_size))
}

/// Operators whose prefix cannot be read cannot be read whole.
proof fn lemma_run_prefix_fails(ops: Seq<Operation>, cache: FontCache, res: Resources, k: int)
    requires
        0 <= k <= ops.len(),
        page_run(ops.take(k), cache, res) is None,
    ensures
        page_run(ops, cache, res) is None,
    decreases ops.len() - k,
{
    if k < ops.len() {
        assert(ops.take(k + 1).drop_last() =~= ops.take(k));
        lemma_run_prefix_fails(ops, cache, res, k + 1);
    } else {
        assert(ops.take(k) =~= ops);
    }
}

/// A loaded document.
pub struct Document {
    pub path: String,
    /// Whether the document asks for a password.
    pub encrypted: bool,
    /// Its pages, in order.
    pub pages: Vec<Page>,
}

/// What one page gives the title selection: the texts drawn at its largest
/// font size and that size, or `None` for a skipped page.
pub type Outcome = Option<(Seq<Seq<char>>, i64)>;

/// The selection outcome of a page's result.
pub open spec fn outcome_of(o: Result<(Seq<Run>, i64), Error>) -> Outcome {
    match o {
        Ok((runs, m)) => Some((runs.map_values(|x: Run| x.0), m)),
        Err(_) => None,
    }
}

/// Whether `o` is what page `page` gives with a font cache built from its resources.
pub open spec fn page_gives(page: Page, o: Outcome) -> bool {
    exists|c: FontCache|
        built_from(font_candidates(page.resources), c.entries@) && o == outcome_of(
            #[trigger] page_outcome(page, c),
        )
}

/// Texts joined by single spaces.
pub open spec fn joined(texts: Seq<Seq<char>>) -> Seq<char>
    decreases texts.len(),
{
    if texts.len() == 0 {
        seq![]
    } else if texts.len() == 1 {
        texts[0]
    } else {
        joined(texts.drop_last()) + seq![' '] + texts.last()
    }
}

/// The largest font size seen over the pages and the title text kept for it:
/// a page replaces the kept text only when its size is strictly larger.
pub open spec fn best_of(outcomes: Seq<Outcome>) -> (i64, Seq<char>)
    decreases outcomes.len(),
{
    if outcomes.len() == 0 {
        (0, seq![])
    } else {
        let prev = best_of(outcomes.drop_last());
        match outcomes.last() {
            Some((texts, m)) => if m > prev.0 {
                (m, joined(texts))
            } else {
                prev
            },
            None => prev,
        }
    }
}

/// The title that the pages' outcomes give.
pub open spec fn title_of(outcomes: Seq<Outcome>) -> Seq<char> {
    best_of(outcomes).1
}

/// The smaller of two counts.
pub open spec fn min_len(a: int, b: int) -> int {
    if a < b {
        a
    } else {
        b
    }
}

/// The texts of drawn runs joined by single spaces.
fn join_texts(v: &Vec<PositionedText>) -> (r: String)
    ensures
        r@ == joined(runs_of(v@).map_values(|x: Run| x.0)),
{
    let ghost texts = runs_of(v@).map_values(|x: Run| x.0);
    let mut text = String::new();
    let mut k: usize = 0;
    while k < v.len()
        invariant
            k <= v.len(),
            texts == runs_of(v@).map_values(|x: Run| x.0),
            text@ == joined(texts.take(k as int)),
        decreases v.len() - k,
    {
        assert(texts.take(k + 1).drop_last() =~= texts.take(k as int));
        assert(texts[k as int] == v@[k as int].text@);
        if k > 0 {
            proof {
                reveal_strlit(" ");
            }
            text.append(" ");
        }
        text.append(v[k].text.as_str());
        k += 1;
    }
    assert(texts.take(k as int) =~= texts);
    text
}

/// Whether `outs` are the outcomes of the first `page_count` pages of `doc`,
/// and `t` is the title they give.
pub open spec fn titles_pages(doc: Document, page_count: usize, t: Seq<char>, outs: Seq<Outcome>) -> bool {
    &&& outs.len() == min_len(page_count as int, doc.pages@.len() as int)
    &&& forall|i: int| 0 <= i < outs.len() ==> page_gives(doc.pages@[i], #[trigger] outs[i])
    &&& t == title_of(outs)
}

/// Whether `r` is the title of the first `page_count` pages of `doc`: an error
/// for an encrypted document, else the title of the pages' outcomes.
pub open spec fn titled(doc: Document, page_count: usize, r: Result<String, Error>) -> bool {
    if doc.encrypted {
        r == Err::<String, Error>(Error::Encrypted(doc.path))
    } else {
        r is Ok && exists|outs: Seq<Outcome>| titles_pages(doc, page_count, r->Ok_0@, outs)
    }
}

/// Picks the title of the first `page_count` pages of a document: the text
/// drawn at the largest font size, from the first page that reaches it, its
/// runs joined by single spaces. A page that cannot be read is skipped.
pub fn parse_pdf(doc: &Document, page_count: usize) -> (r: Result<String, Error>)
    ensures
        !doc.encrypted && (doc.pages@.len() == 0 || page_count == 0) ==> (r matches Ok(t)
            && t@.len() == 0),
        titled(*doc, page_count, r),
{
    if doc.encrypted {
        return Err(Error::Encrypted(doc.path.clone()));
    }
    let n: usize = if page_count < doc.pages.len() {
        page_count
    } else {
        doc.pages.len()
    };
    let mut max_font_size: i64 = 0;
    let mut text = String::new();
    let ghost mut outs: Seq<Outcome> = seq![];
    let mut i: usize = 0;
    while i < n
        invariant
            i <= n <= doc.pages.len(),
            outs.len() == i,
            forall|j: int| 0 <= j < i ==> page_gives(doc.pages@[j], #[trigger] outs[j]),
            best_of(outs) == (max_font_size, text@),
        decreases n - i,
    {
        let page_result = largest_text_elements(&doc.pages[i]);
        let ghost c = choose|c: FontCache|
            built_from(font_candidates(doc.pages@[i as int].resources), c.entries@) && gives(
                page_result,
                #[trigger] page_outcome(doc.pages@[i as int], c),
            );
        let ghost o = outcome_of(page_outcome(doc.pages@[i as int], c));
        assert(page_gives(doc.pages@[i as int], o));
        let ghost prev = outs;
        proof {
            outs = outs.push(o);
        }
        assert(outs.drop_last() =~= prev);
        if let Ok((page_text, font_size)) = page_result {
            assert(runs_of(page_text@).map_values(|x: Run| x.0) == (o->0).0);
            if font_size > max_font_size {
                text = join_texts(&page_text);
                max_font_size = font_size;
            }
        }
        i += 1;
    }
    assert(titles_pages(*doc, page_count, text@, outs));
    let r: Result<String, Error> = Ok(text);
    assert(titles_pages(*doc, page_count, r->Ok_0@, outs));
    r
}

/// Whether every page read in `outs` stays below `b`.
pub open spec fn all_below(outs: Seq<Outcome>, b: i64) -> bool {
    forall|j: int| 0 <= j < outs.len() && (#[trigger] outs[j]) is Some ==> (outs[j]->0).1 < b
}

proof fn lemma_best_below(outs: Seq<Outcome>, b: i64)
    requires
        0 < b,
        all_below(outs, b),
    ensures
        best_of(outs).0 < b,
    decreases outs.len(),
{
    if outs.len() > 0 {
        assert(all_below(outs.drop_last(), b)) by {
            assert forall|j: int| 0 <= j < outs.drop_last().len() && (#[trigger] outs.drop_last()[j]) is Some implies (outs.drop_last()[j]->0).1 < b by {
                assert(outs.drop_last()[j] == outs[j]);
            }
        }
        lemma_best_below(outs.drop_last(), b);
        assert(outs.last() == outs[outs.len() - 1]);
    }
}

/// The first page that reaches the largest font size of all pages gives the
/// title, when that size is positive.
pub proof fn lemma_first_largest_wins(outs: Seq<Outcome>, k: int)
    requires
        0 <= k < outs.len(),
        outs[k] is Some,
        (outs[k]->0).1 > 0,
        all_below(outs.take(k), (outs[k]->0).1),
        forall|j: int| k < j < outs.len() && (#[trigger] outs[j]) is Some ==> (outs[j]->0).1 <= (outs[k]->0).1,
    ensures
        title_of(outs) == joined((outs[k]->0).0),
        best_of(outs).0 == (outs[k]->0).1,
    decreases outs.len(),
{
    if outs.len() == k + 1 {
        assert(outs.drop_last() =~= outs.take(k));
        lemma_best_below(outs.take(k), (outs[k]->0).1);
    } else {
        let d = outs.drop_last();
        assert(d.take(k) =~= outs.take(k));
        assert forall|j: int| k < j < d.len() && (#[trigger] d[j]) is Some implies (d[j]->0).1 <= (d[k]->0).1 by {
            assert(d[j] == outs[j]);
        }
        lemma_first_largest_wins(d, k);
        assert(outs.last() == outs[outs.len() - 1]);
    }
}

/// A page whose largest font size is positive and exceeds that of every other
/// page gives the title: its texts at that size, joined by spaces.
pub proof fn lemma_unique_largest_page(outs: Seq<Outcome>, k: int)
    requires
        0 <= k < outs.len(),
        outs[k] is Some,
        (outs[k]->0).1 > 0,
        forall|j: int| 0 <= j < outs.len() && j != k && (#[trigger] outs[j]) is Some ==> (outs[j]->0).1 < (outs[k]->0).1,
    ensures
        title_of(outs) == joined((outs[k]->0).0),
{
    assert forall|j: int| 0 <= j < outs.take(k).len() && (#[trigger] outs.take(k)[j]) is Some implies (outs.take(k)[j]->0).1 < (outs[k]->0).1 by {
        assert(outs.take(k)[j] == outs[j]);
    }
    lemma_first_largest_wins(outs, k);
}

/// When two pages both reach the largest font size of all pages, and it is
/// positive, the earlier of them gives the title.
pub proof fn lemma_tie_keeps_earlier_page(outs: Seq<Outcome>, i: int, j: int)
    requires
        0 <= i < j < outs.len(),
        outs[i] is Some,
        outs[j] is Some,
        (outs[i]->0).1 == (outs[j]->0).1,
        (outs[i]->0).1 > 0,
        forall|l: int| 0 <= l < outs.len() && l != i && l != j && (#[trigger] outs[l]) is Some ==> (outs[l]->0).1 < (outs[i]->0).1,
    ensures
        title_of(outs) == joined((outs[i]->0).0),
{
    assert forall|l: int| 0 <= l < outs.take(i).len() && (#[trigger] outs.take(i)[l]) is Some implies (outs.take(i)[l]->0).1 < (outs[i]->0).1 by {
        assert(outs.take(i)[l] == outs[l]);
    }
    lemma_first_largest_wins(outs, i);
}

proof fn lemma_skip_ignored(outs: Seq<Outcome>, k: int)
    requires
        0 <= k <= outs.len(),
    ensures
        best_of(outs.insert(k, None)) == best_of(outs),
    decreases outs.len(),
{
    let ins = outs.insert(k, None);
    if k == outs.len() {
        assert(ins.drop_last() =~= outs);
    } else {
        assert(ins.drop_last() =~= outs.drop_last().insert(k, None));
        lemma_skip_ignored(outs.drop_last(), k);
        assert(ins.last() == outs.last());
    }
}

/// A page whose content stream could not be decoded is skipped: wherever it
/// stands among the pages, the title is that of the other pages.
pub proof fn lemma_undecodable_page_skipped(page: Page, o: Outcome, outs: Seq<Outcome>, k: int)
    requires
        page.contents matches Some(Err(_)),
        page_gives(page, o),
        0 <= k <= outs.len(),
    ensures
        o is None,
        title_of(outs.insert(k, o)) == title_of(outs),
{
    lemma_skip_ignored(outs, k);
}

/// Whether two states agree, with fonts that decode alike.
pub open spec fn same_state(a: TextState, b: TextState) -> bool {
    &&& a.font_size == b.font_size
    &&& a.leading == b.leading
    &&& a.y == b.y
    &&& same_decoder(a.font.0, b.font.0)
}

proof fn lemma_adjusted_alike(a: Decoder, b: Decoder, items: Seq<TextItem>)
    requires
        same_decoder(a, b),
    ensures
        adjusted_text(a, items) == adjusted_text(b, items),
    decreases items.len(),
{
    if items.len() > 0 {
        lemma_adjusted_alike(a, b, items.drop_last());
        if let TextItem::Text(bytes) = items.last() {
            lemma_same_decoder_decodes_alike(a, b, bytes@);
        }
    }
}

proof fn lemma_font_for_alike(c1: FontCache, c2: FontCache, name: Seq<char>)
    requires
        same_entries(c1.entries@, c2.entries@),
    ensures
        same_decoder(c1.font_for(name).0, c2.font_for(name).0),
{
    lemma_lookup_alike(c1.entries@, c2.entries@, name);
}

proof fn lemma_step_alike(
    s1: TextState,
    s2: TextState,
    max: i64,
    op: Operation,
    c1: FontCache,
    c2: FontCache,
    res: Resources,
)
    requires
        same_state(s1, s2),
        same_entries(c1.entries@, c2.entries@),
    ensures
        step(s1, max, op, c1, res) is Some == step(s2, max, op, c2, res) is Some,
        step(s1, max, op, c1, res) is Some ==> {
            let a = step(s1, max, op, c1, res)->0;
            let b = step(s2, max, op, c2, res)->0;
            same_state(a.0, b.0) && a.1 == b.1 && a.2 == b.2
        },
{
    match op {
        Operation::SetFont(name, _) => lemma_font_for_alike(c1, c2, name@),
        Operation::SetGraphicsStateFont(name) => {
            if let Some(g) = crate::font::last_state(res.graphics_states@, name@) {
                if let Some((Some(d), _)) = g.font {
                    if let Some(n) = d.name {
                        lemma_font_for_alike(c1, c2, n@);
                    }
                }
            }
        },
        Operation::ShowText(b) => lemma_same_decoder_decodes_alike(s1.font.0, s2.font.0, b@),
        Operation::ShowTextAdjusted(items) => lemma_adjusted_alike(s1.font.0, s2.font.0, items@),
        _ => {},
    }
}

proof fn lemma_run_alike(ops: Seq<Operation>, c1: FontCache, c2: FontCache, res: Resources)
    requires
        same_entries(c1.entries@, c2.entries@),
    ensures
        page_run(ops, c1, res) is Some == page_run(ops, c2, res) is Some,
        page_run(ops, c1, res) is Some ==> {
            let a = page_run(ops, c1, res)->0;
            let b = page_run(ops, c2, res)->0;
            same_state(a.0, b.0) && a.1 == b.1 && a.2 == b.2
        },
    decreases ops.len(),
{
    if ops.len() > 0 {
        lemma_run_alike(ops.drop_last(), c1, c2, res);
        if let Some((s1, m, _)) = page_run(ops.drop_last(), c1, res) {
            let s2 = (page_run(ops.drop_last(), c2, res)->0).0;
            lemma_step_alike(s1, s2, m, ops.last(), c1, c2, res);
        }
    }
}

/// A page gives one outcome with every font cache built from its resources.
pub proof fn lemma_outcome_alike(page: Page, c1: FontCache, c2: FontCache)
    requires
        built_from(font_candidates(page.resources), c1.entries@),
        built_from(font_candidates(page.resources), c2.entries@),
    ensures
        page_outcome(page, c1) == page_outcome(page, c2),
{
    lemma_built_unique(font_candidates(page.resources), c1.entries@, c2.entries@);
    if let Some(Ok(ops)) = page.contents {
        lemma_run_alike(ops@, c1, c2, page.resources);
    }
}

/// Each page has exactly one outcome.
pub proof fn lemma_page_outcome_unique(page: Page, o1: Outcome, o2: Outcome)
    requires
        page_gives(page, o1),
        page_gives(page, o2),
    ensures
        o1 == o2,
{
    let c1 = choose|c: FontCache|
        built_from(font_candidates(page.resources), c.entries@) && o1 == outcome_of(
            #[trigger] page_outcome(page, c),
        );
    let c2 = choose|c: FontCache|
        built_from(font_candidates(page.resources), c.entries@) && o2 == outcome_of(
            #[trigger] page_outcome(page, c),
        );
    lemma_outcome_alike(page, c1, c2);
}

/// Two results of reading one page are the same.
pub proof fn lemma_read_page_unique(
    page: Page,
    r1: Result<(Vec<PositionedText>, i64), Error>,
    r2: Result<(Vec<PositionedText>, i64), Error>,
)
    requires
        read_page(page, r1),
        read_page(page, r2),
    ensures
        result_view(r1) == result_view(r2),
{
    let c1 = choose|c: FontCache|
        built_from(font_candidates(page.resources), c.entries@) && gives(r1, #[trigger] page_outcome(page, c));
    let c2 = choose|c: FontCache|
        built_from(font_candidates(page.resources), c.entries@) && gives(r2, #[trigger] page_outcome(page, c));
    lemma_outcome_alike(page, c1, c2);
}

/// Pages past the page limit do not change the title: two documents whose
/// first `page_count` pages are the same give the same title.
pub proof fn lemma_pages_past_limit_ignored(
    d1: Document,
    d2: Document,
    page_count: usize,
    r1: Result<String, Error>,
    r2: Result<String, Error>,
)
    requires
        titled(d1, page_count, r1),
        titled(d2, page_count, r2),
        !d1.encrypted,
        !d2.encrypted,
        min_len(page_count as int, d1.pages@.len() as int) == min_len(page_count as int, d2.pages@.len() as int),
        forall|i: int| 0 <= i < min_len(page_count as int, d1.pages@.len() as int) ==> #[trigger] d1.pages@[i] == d2.pages@[i],
    ensures
        r1 is Ok,
        r2 is Ok,
        r1->Ok_0@ == r2->Ok_0@,
{
    let o1 = choose|outs: Seq<Outcome>| titles_pages(d1, page_count, r1->Ok_0@, outs);
    let o2 = choose|outs: Seq<Outcome>| titles_pages(d2, page_count, r2->Ok_0@, outs);
    assert forall|i: int| 0 <= i < o1.len() implies o1[i] == o2[i] by {
        assert(d1.pages@[i] == d2.pages@[i]);
        lemma_page_outcome_unique(d1.pages@[i], o1[i], o2[i]);
    }
    assert(o1 =~= o2);
}

/// Removing, from within the page limit, a page whose content stream could not
/// be decoded leaves the title unchanged, with the limit one less.
pub proof fn lemma_undecodable_page_removed(
    d1: Document,
    d2: Document,
    page_count: usize,
    j: int,
    r1: Result<String, Error>,
    r2: Result<String, Error>,
)
    requires
        page_count >= 1,
        titled(d1, page_count, r1),
        titled(d2, (page_count - 1) as usize, r2),
        !d1.encrypted,
        !d2.encrypted,
        0 <= j < min_len(page_count as int, d1.pages@.len() as int),
        d1.pages@[j].contents matches Some(Err(_)),
        d2.pages@ == d1.pages@.remove(j),
    ensures
        r1 is Ok,
        r2 is Ok,
        r1->Ok_0@ == r2->Ok_0@,
{
    let o1 = choose|outs: Seq<Outcome>| titles_pages(d1, page_count, r1->Ok_0@, outs);
    let n2 = (page_count - 1) as usize;
    let o2 = choose|outs: Seq<Outcome>| titles_pages(d2, n2, r2->Ok_0@, outs);
    assert(page_gives(d1.pages@[j], o1[j]));
    assert(o1[j] is None);
    assert forall|i: int| 0 <= i < o1.len() implies o1[i] == o2.insert(j, None)[i] by {
        if i < j {
            assert(d2.pages@[i] == d1.pages@[i]);
            assert(page_gives(d2.pages@[i], o2[i]));
            lemma_page_outcome_unique(d1.pages@[i], o1[i], o2[i]);
        } else if i > j {
            assert(d2.pages@[i - 1] == d1.pages@[i]);
            assert(page_gives(d2.pages@[i - 1], o2[i - 1]));
            lemma_page_outcome_unique(d1.pages@[i], o1[i], o2[i - 1]);
        }
    }
    assert(o1 =~= o2.insert(j, None));
    lemma_skip_ignored(o2, j);
}

/// The operators of a list that text extraction does not ignore.
pub open spec fn without_other(ops: Seq<Operation>) -> Seq<Operation>
    decreases ops.len(),
{
    if ops.len() == 0 {
        seq![]
    } else if ops.last() is Other {
        without_other(ops.drop_last())
    } else {
        without_other(ops.drop_last()).push(ops.last())
    }
}

proof fn lemma_run_without_other(ops: Seq<Operation>, c: FontCache, res: Resources)
    ensures
        page_run(ops, c, res) == page_run(without_other(ops), c, res),
    decreases ops.len(),
{
    if ops.len() > 0 {
        lemma_run_without_other(ops.drop_last(), c, res);
        if !(ops.last() is Other) {
            let w = without_other(ops.drop_last());
            assert(w.push(ops.last()).drop_last() =~= w);
        }
    }
}

/// Unrecognised operators are ignored: two pages with the same resources whose
/// operators differ only in `Other` operators read alike.
pub proof fn lemma_ignored_operators(
    p1: Page,
    p2: Page,
    r1: Result<(Vec<PositionedText>, i64), Error>,
    r2: Result<(Vec<PositionedText>, i64), Error>,
)
    requires
        read_page(p1, r1),
        read_page(p2, r2),
        p1.resources == p2.resources,
        p1.contents is Some && p1.contents->0 is Ok,
        p2.contents is Some && p2.contents->0 is Ok,
        without_other(p1.contents->0->Ok_0@) == without_other(p2.contents->0->Ok_0@),
    ensures
        result_view(r1) == result_view(r2),
{
    let c1 = choose|c: FontCache|
        built_from(font_candidates(p1.resources), c.entries@) && gives(r1, #[trigger] page_outcome(p1, c));
    let c2 = choose|c: FontCache|
        built_from(font_candidates(p2.resources), c.entries@) && gives(r2, #[trigger] page_outcome(p2, c));
    lemma_outcome_alike(p2, c1, c2);
    let res = p1.resources;
    lemma_run_without_other(p1.contents->0->Ok_0@, c1, res);
    lemma_run_without_other(p2.contents->0->Ok_0@, c1, res);
}

/// The text `t` once for each byte of `data` equal to `b`.
pub open spec fn repeated_for(data: Seq<u8>, b: u8, t: Seq<char>) -> Seq<char>
    decreases data.len(),
{
    if data.len() == 0 {
        seq![]
    } else {
        repeated_for(data.drop_last(), b, t) + if data.last() == b {
            t
        } else {
            seq![]
        }
    }
}

proof fn lemma_mapped_repeated(m: Map<u8, Seq<char>>, data: Seq<u8>, b: u8, t: Seq<char>)
    requires
        forall|k: u8| #[trigger] text_of(crate::encoding::entry_of(m, k)) == if k == b {
            t
        } else {
            seq![]
        },
    ensures
        mapped_text(m, data) == repeated_for(data, b, t),
    decreases data.len(),
{
    if data.len() > 0 {
        lemma_mapped_repeated(m, data.drop_last(), b, t);
        assert(text_of(crate::encoding::entry_of(m, data.last())) == if data.last() == b {
            t
        } else {
            seq![]
        });
    }
}

/// A font with no base encoding and a single override, for code 65, decodes
/// each byte 0x41 to the text of that override's glyph name and every other
/// byte to nothing.
pub proof fn lemma_single_override(f: FontDesc, d: Decoder, data: Seq<u8>)
    requires
        decoder_of(f, d),
        f.to_unicode is None,
        f.encoding is Some,
        (f.encoding->0).base is Unspecified,
        (f.encoding->0).differences@.dom() == set![65u32],
    ensures
        decoded(d, data) == Some(
            repeated_for(data, 0x41u8, text_of(glyph_text((f.encoding->0).differences@[65u32]@))),
        ),
{
    let e = f.encoding->0;
    let t = text_of(glyph_text(e.differences@[65u32]@));
    if let Decoder::DifferenceMap(m) = d {
        let entries = crate::encoding::difference_entries(m);
        assert forall|k: u8| #[trigger] text_of(crate::encoding::entry_of(entries, k)) == if k == 0x41u8 {
            t
        } else {
            seq![]
        } by {
            assert(e.differences@.contains_key(k as u32) == (k == 0x41u8));
        }
        lemma_mapped_repeated(entries, data, 0x41u8, t);
    }
}

} // verus!
