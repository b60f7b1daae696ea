//! The PDF side of ingestion: judging an extracted text layer, estimating
//! the page count from the raw bytes, and cutting the text into paragraphs.

use vstd::prelude::*;
use crate::clock::current_timestamp;
use crate::models::{chunks_view, Chunk, ChunkMetadata, ChunkMetadataView, ChunkView};
use crate::text::{chars_to_string, str_chars, trim, trim_chars};

verus! {

/// A text layer with fewer characters per page than this counts as scanned.
pub const MIN_CHARS_PER_PAGE: usize = 50;

/// A paragraph with fewer characters than this is dropped as an artifact.
pub const MIN_PARAGRAPH_SIZE: usize = 20;

/// Outcome of extracting the text of a PDF.
#[derive(Debug, Clone)]
pub enum PdfStatus {
    /// Text was extracted, from the text layer or by OCR.
    Success { text: String, page_count: usize },
    /// The PDF has no usable text layer and OCR gave nothing.
    ScannedPdf { page_count: usize },
    /// Extraction failed.
    Error(String),
}

/// The mathematical content of a [`PdfStatus`].
pub enum PdfStatusView {
    Success { text: Seq<char>, page_count: usize },
    ScannedPdf { page_count: usize },
    Error(Seq<char>),
}

impl View for PdfStatus {
    type V = PdfStatusView;

    open spec fn view(&self) -> PdfStatusView {
        match *self {
            PdfStatus::Success { text, page_count } => PdfStatusView::Success {
                text: text@,
                page_count,
            },
            PdfStatus::ScannedPdf { page_count } => PdfStatusView::ScannedPdf { page_count },
            PdfStatus::Error(message) => PdfStatusView::Error(message@),
        }
    }
}

/// A text layer is taken for a scan when it is blank, or when it holds
/// fewer than fifty characters per page on average.
pub open spec fn scanned(text: Seq<char>, page_count: usize) -> bool {
    let length = trim(text).len();
    let pages: int = if page_count >= 1 {
        page_count as int
    } else {
        1
    };
    length == 0 || length as int / pages < MIN_CHARS_PER_PAGE
}

/// Tells whether the extracted text is too sparse for a real text layer.
pub fn is_scanned_pdf(text: &str, page_count: usize) -> (r: bool)
    ensures
        r == scanned(text@, page_count),
{
    let length = trim_chars(&str_chars(text)).len();
    if length == 0 {
        return true;
    }
    let pages: usize = if page_count >= 1 {
        page_count
    } else {
        1
    };
    length / pages < MIN_CHARS_PER_PAGE
}

/// Whether `pattern` stands in `bytes` at position `i`.
pub open spec fn occurs_at(bytes: Seq<u8>, pattern: Seq<u8>, i: int) -> bool {
    0 <= i && i + pattern.len() <= bytes.len() && bytes.subrange(i, i + pattern.len()) == pattern
}

/// Number of positions below `upto` at which `pattern` stands in `bytes`.
pub open spec fn count_occurrences(bytes: Seq<u8>, pattern: Seq<u8>, upto: int) -> nat
    decreases upto,
{
    if upto <= 0 {
        0
    } else {
        count_occurrences(bytes, pattern, upto - 1) + if occurs_at(bytes, pattern, upto - 1) {
            1nat
        } else {
            0nat
        }
    }
}

/// The bytes of `/Type /Page`, which open a page object and also the page
/// tree.
pub open spec fn page_marker() -> Seq<u8> {
    seq![47u8, 84u8, 121u8, 112u8, 101u8, 32u8, 47u8, 80u8, 97u8, 103u8, 101u8]
}

/// The bytes of `/Type /Pages`, which open the page tree only.
pub open spec fn pages_marker() -> Seq<u8> {
    page_marker().push(115u8)
}

/// The estimate of the page count: page markers that do not belong to a
/// page tree, and never less than one.
pub open spec fn estimated_pages(bytes: Seq<u8>) -> int {
    let pages = count_occurrences(bytes, page_marker(), bytes.len() as int)
        - count_occurrences(bytes, pages_marker(), bytes.len() as int);
    if pages >= 1 {
        pages
    } else {
        1
    }
}

/// Tells whether `pattern` stands in `bytes` at position `i`.
pub fn matches_at(bytes: &[u8], pattern: &Vec<u8>, i: usize) -> (r: bool)
    ensures
        r == occurs_at(bytes@, pattern@, i as int),
{
    let n = pattern.len();
    if i > bytes.len() || n > bytes.len() - i {
        return false;
    }
    let mut k: usize = 0;
    while k < n
        invariant
            k <= n,
            n == pattern@.len(),
            i + n <= bytes@.len(),
            bytes@.len() <= usize::MAX,
            forall|j: int| 0 <= j < k ==> bytes@[i + j] == pattern@[j],
        decreases n - k,
    {
        if bytes[i + k] != pattern[k] {
            assert(bytes@.subrange(i as int, i + n)[k as int] != pattern@[k as int]);
            return false;
        }
        k += 1;
    }
    assert(bytes@.subrange(i as int, i + n) =~= pattern@);
    true
}

/// Counts the positions at which `pattern` stands in `bytes`.
pub fn count_pattern(bytes: &[u8], pattern: &Vec<u8>) -> (r: usize)
    ensures
        r == count_occurrences(bytes@, pattern@, bytes@.len() as int),
{
    let mut count: usize = 0;
    let mut i: usize = 0;
    while i < bytes.len()
        invariant
            i <= bytes@.len(),
            count <= i,
            count == count_occurrences(bytes@, pattern@, i as int),
        decreases bytes.len() - i,
    {
        if matches_at(bytes, pattern, i) {
            count += 1;
        }
        i += 1;
    }
    count
}

/// Estimates the number of pages of a PDF from its raw bytes.
pub fn estimate_page_count(bytes: &[u8]) -> (r: usize)
    ensures
        r == estimated_pages(bytes@),
{
    let mut marker: Vec<u8> = vec![47u8, 84u8, 121u8, 112u8, 101u8, 32u8, 47u8, 80u8, 97u8, 103u8, 101u8];
    assert(marker@ =~= page_marker());
    let pages = count_pattern(bytes, &marker);
    marker.push(115u8);
    let trees = count_pattern(bytes, &marker);
    if pages > trees {
        pages - trees
    } else {
        1
    }
}

/// The outcome of reading a text layer: an error if extraction failed, a
/// scan if the text is too sparse, and the text itself otherwise.
pub open spec fn extraction_outcome(
    bytes: Seq<u8>,
    extracted: Result<Seq<char>, Seq<char>>,
) -> PdfStatusView {
    match extracted {
        Err(message) => PdfStatusView::Error(message),
        Ok(text) => if scanned(text, estimated_pages(bytes) as usize) {
            PdfStatusView::ScannedPdf { page_count: estimated_pages(bytes) as usize }
        } else {
            PdfStatusView::Success { text, page_count: estimated_pages(bytes) as usize }
        },
    }
}

/// The view of an extraction result.
pub open spec fn extracted_view(extracted: Result<String, String>) -> Result<
    Seq<char>,
    Seq<char>,
> {
    match extracted {
        Ok(text) => Ok(text@),
        Err(message) => Err(message@),
    }
}

/// Judges what the text extractor made of a PDF: `bytes` is the file and
/// `extracted` its text layer, or the extractor's error message.
pub fn extract_text_from_pdf(bytes: &[u8], extracted: Result<String, String>) -> (r: PdfStatus)
    ensures
        r@ == extraction_outcome(bytes@, extracted_view(extracted)),
{
    match extracted {
        Err(message) => PdfStatus::Error(message),
        Ok(text) => {
            let page_count = estimate_page_count(bytes);
            if is_scanned_pdf(text.as_str(), page_count) {
                PdfStatus::ScannedPdf { page_count }
            } else {
                PdfStatus::Success { text, page_count }
            }
        },
    }
}

/// What a scanned PDF becomes once OCR has been tried: a success if OCR
/// read any text, and the same status otherwise.
pub open spec fn with_ocr(status: PdfStatusView, ocr: Option<Seq<char>>) -> PdfStatusView {
    match (status, ocr) {
        (PdfStatusView::ScannedPdf { page_count }, Some(text)) => PdfStatusView::Success {
            text,
            page_count,
        },
        _ => status,
    }
}

/// Folds the result of an OCR attempt into the status of a PDF.
pub fn apply_ocr_result(status: PdfStatus, ocr: Option<String>) -> (r: PdfStatus)
    ensures
        r@ == with_ocr(status@, crate::models::opt_string_view(ocr)),
{
    match status {
        PdfStatus::ScannedPdf { page_count } => match ocr {
            Some(text) => PdfStatus::Success { text, page_count },
            None => PdfStatus::ScannedPdf { page_count },
        },
        other => other,
    }
}

/// Whether a blank line begins at position `i`: two line feeds in a row.
pub open spec fn break_at(s: Seq<char>, i: int) -> bool {
    0 <= i && i + 1 < s.len() && s[i] == '\n' && s[i + 1] == '\n'
}

/// The first position from `from` on at which a blank line begins, or the
/// length of `s` if there is none.
pub open spec fn next_break(s: Seq<char>, from: int) -> int
    decreases s.len() - from,
{
    if from < 0 || from + 1 >= s.len() {
        s.len() as int
    } else if break_at(s, from) {
        from
    } else {
        next_break(s, from + 1)
    }
}

/// The pieces into which blank lines cut `s` from position `from` on,
/// read from left to right.
pub open spec fn pieces_from(s: Seq<char>, from: int) -> Seq<Seq<char>>
    decreases s.len() - from,
{
    if from < 0 || from > s.len() {
        Seq::empty()
    } else {
        let cut = next_break(s, from);
        if cut >= from && cut + 1 < s.len() {
            seq![s.subrange(from, cut)] + pieces_from(s, cut + 2)
        } else {
            seq![s.subrange(from, s.len() as int)]
        }
    }
}

/// The pieces into which blank lines cut a text.
pub open spec fn split_paragraphs(s: Seq<char>) -> Seq<Seq<char>> {
    pieces_from(s, 0)
}

/// The pieces that are not blank, in order.
pub open spec fn non_blank(pieces: Seq<Seq<char>>) -> Seq<Seq<char>>
    decreases pieces.len(),
{
    if pieces.len() == 0 {
        Seq::empty()
    } else if trim(pieces.last()).len() > 0 {
        non_blank(pieces.drop_last()).push(pieces.last())
    } else {
        non_blank(pieces.drop_last())
    }
}

/// A chunk of a PDF: no headers, no language, the given lines.
pub open spec fn pdf_chunk(
    doc_id: i64,
    content: Seq<char>,
    start_line: usize,
    end_line: usize,
    now: i64,
) -> ChunkView {
    ChunkView {
        id: 0,
        doc_id,
        content,
        metadata: Some(
            ChunkMetadataView { headers: Seq::empty(), chunk_type: "pdf"@, language: None },
        ),
        start_line,
        end_line,
        created_at: now,
    }
}

/// The chunks of the given paragraphs: each trimmed and numbered from 1,
/// those shorter than the minimum left out.
pub open spec fn paragraph_chunks(doc_id: i64, paragraphs: Seq<Seq<char>>, now: i64) -> Seq<
    ChunkView,
>
    decreases paragraphs.len(),
{
    if paragraphs.len() == 0 {
        Seq::empty()
    } else {
        let before = paragraph_chunks(doc_id, paragraphs.drop_last(), now);
        let content = trim(paragraphs.last());
        if content.len() < MIN_PARAGRAPH_SIZE {
            before
        } else {
            before.push(
                pdf_chunk(
                    doc_id,
                    content,
                    paragraphs.len() as usize,
                    paragraphs.len() as usize,
                    now,
                ),
            )
        }
    }
}

/// The last line of the chunk that covers a whole document.
pub open spec fn whole_text_end(page_count: usize) -> usize {
    if page_count >= 1 {
        page_count
    } else {
        1
    }
}

/// The chunks of the text of a PDF: one for each paragraph that is long
/// enough, or, if there is no such paragraph, one that covers the whole
/// text.
pub open spec fn pdf_chunks(doc_id: i64, text: Seq<char>, page_count: usize, now: i64) -> Seq<
    ChunkView,
> {
    let chunks = paragraph_chunks(doc_id, non_blank(split_paragraphs(text)), now);
    if chunks.len() == 0 {
        seq![pdf_chunk(doc_id, text, 1, whole_text_end(page_count), now)]
    } else {
        chunks
    }
}

/// Every chunk of a PDF spans at least one line, counted from 1.
pub proof fn lemma_pdf_chunk_lines(
    doc_id: i64,
    text: Seq<char>,
    page_count: usize,
    now: i64,
    k: int,
)
    requires
        0 <= k < pdf_chunks(doc_id, text, page_count, now).len(),
        non_blank(split_paragraphs(text)).len() <= usize::MAX,
    ensures
        1 <= pdf_chunks(doc_id, text, page_count, now)[k].start_line <= pdf_chunks(
            doc_id,
            text,
            page_count,
            now,
        )[k].end_line,
{
    let paragraphs = non_blank(split_paragraphs(text));
    if paragraph_chunks(doc_id, paragraphs, now).len() > 0 {
        lemma_paragraph_chunk_lines(doc_id, paragraphs, now, k);
    }
}

/// Every paragraph chunk carries the number of its paragraph, from 1 on.
pub proof fn lemma_paragraph_chunk_lines(
    doc_id: i64,
    paragraphs: Seq<Seq<char>>,
    now: i64,
    k: int,
)
    requires
        0 <= k < paragraph_chunks(doc_id, paragraphs, now).len(),
        paragraphs.len() <= usize::MAX,
    ensures
        1 <= paragraph_chunks(doc_id, paragraphs, now)[k].start_line <= paragraphs.len(),
        paragraph_chunks(doc_id, paragraphs, now)[k].start_line == paragraph_chunks(
            doc_id,
            paragraphs,
            now,
        )[k].end_line,
    decreases paragraphs.len(),
{
    if paragraphs.len() > 0 {
        let before = paragraph_chunks(doc_id, paragraphs.drop_last(), now);
        if k < before.len() {
            lemma_paragraph_chunk_lines(doc_id, paragraphs.drop_last(), now, k);
        }
    }
}

/// The views of a sequence of character vectors.
pub open spec fn pieces_view(v: Seq<Vec<char>>) -> Seq<Seq<char>> {
    Seq::new(v.len(), |i: int| v[i]@)
}

/// Copies the characters of `v` from position `from` up to `to`.
pub fn slice_chars(v: &Vec<char>, from: usize, to: usize) -> (r: Vec<char>)
    requires
        from <= to <= v@.len(),
    ensures
        r@ == v@.subrange(from as int, to as int),
{
    let mut r: Vec<char> = Vec::new();
    let mut k: usize = from;
    while k < to
        invariant
            from <= k <= to <= v@.len(),
            r@ == v@.subrange(from as int, k as int),
        decreases to - k,
    {
        r.push(v[k]);
        assert(r@ =~= v@.subrange(from as int, k as int + 1));
        k += 1;
    }
    r
}

/// Cuts a text at its blank lines.
pub fn split_on_blank_lines(s: &Vec<char>) -> (r: Vec<Vec<char>>)
    ensures
        pieces_view(r@) == split_paragraphs(s@),
{
    let n: usize = s.len();
    let mut out: Vec<Vec<char>> = Vec::new();
    let mut start: usize = 0;
    let mut i: usize = 0;
    assert(pieces_view(out@) + pieces_from(s@, 0) =~= pieces_from(s@, 0));
    while n - i > 1
        invariant
            start <= i <= n,
            n == s@.len(),
            pieces_view(out@) + pieces_from(s@, start as int) == pieces_from(s@, 0),
            next_break(s@, start as int) == next_break(s@, i as int),
        decreases n - i,
    {
        if s[i] == '\n' && s[i + 1] == '\n' {
            let piece = slice_chars(s, start, i);
            let ghost before = out@;
            out.push(piece);
            proof {
                assert(break_at(s@, i as int));
                assert(next_break(s@, i as int) == i);
                assert(pieces_view(out@) =~= pieces_view(before).push(piece@));
                assert(pieces_view(out@) + pieces_from(s@, i as int + 2) =~= pieces_view(before)
                    + pieces_from(s@, start as int));
            }
            start = i + 2;
            i = i + 2;
        } else {
            assert(!break_at(s@, i as int));
            i += 1;
        }
    }
    let piece = slice_chars(s, start, n);
    let ghost before = out@;
    out.push(piece);
    proof {
        assert(next_break(s@, i as int) == n);
        assert(pieces_from(s@, start as int) =~= seq![s@.subrange(start as int, n as int)]);
        assert(pieces_view(out@) =~= pieces_view(before).push(piece@));
        assert(pieces_view(out@) =~= pieces_view(before) + pieces_from(s@, start as int));
    }
    out
}

/// Builds one chunk of a PDF.
pub fn make_pdf_chunk(doc_id: i64, content: String, start_line: usize, end_line: usize, now: i64) -> (r:
    Chunk)
    ensures
        r@ == pdf_chunk(doc_id, content@, start_line, end_line, now),
{
    let headers: Vec<String> = Vec::new();
    assert(crate::models::strings_view(headers@) =~= Seq::<Seq<char>>::empty());
    Chunk {
        id: 0,
        doc_id,
        content,
        metadata: Some(ChunkMetadata { headers, chunk_type: "pdf".to_owned(), language: None }),
        start_line,
        end_line,
        created_at: now,
    }
}

/// Cuts the text of a PDF into chunks stamped with the time `now`: one for
/// each paragraph of at least twenty characters, carrying the number of
/// the paragraph as its line; or one for the whole text where no paragraph
/// is that long.
pub fn chunk_pdf_text_at(doc_id: i64, text: &str, page_count: usize, now: i64) -> (r: Vec<Chunk>)
    ensures
        chunks_view(r@) == pdf_chunks(doc_id, text@, page_count, now),
        non_blank(split_paragraphs(text@)).len() <= usize::MAX,
{
    let chars = str_chars(text);
    let pieces = split_on_blank_lines(&chars);
    let ghost all = pieces_view(pieces@);
    let mut chunks: Vec<Chunk> = Vec::new();
    let mut index: usize = 0;
    let mut i: usize = 0;
    assert(all.take(0) =~= Seq::<Seq<char>>::empty());
    assert(chunks_view(chunks@) =~= Seq::<ChunkView>::empty());
    while i < pieces.len()
        invariant
            i <= pieces@.len(),
            all == pieces_view(pieces@),
            index <= i,
            index == non_blank(all.take(i as int)).len(),
            chunks_view(chunks@) == paragraph_chunks(doc_id, non_blank(all.take(i as int)), now),
        decreases pieces.len() - i,
    {
        let content = trim_chars(&pieces[i]);
        proof {
            assert(all.take(i as int + 1).drop_last() =~= all.take(i as int));
            assert(all.take(i as int + 1).last() == pieces@[i as int]@);
        }
        if content.len() > 0 {
            index += 1;
            let ghost kept = non_blank(all.take(i as int + 1));
            proof {
                assert(kept.drop_last() =~= non_blank(all.take(i as int)));
                assert(kept.last() == pieces@[i as int]@);
            }
            if content.len() >= MIN_PARAGRAPH_SIZE {
                let chunk = make_pdf_chunk(doc_id, chars_to_string(&content), index, index, now);
                let ghost before = chunks@;
                chunks.push(chunk);
                assert(chunks_view(chunks@) =~= chunks_view(before).push(chunk@));
            }
        }
        i += 1;
    }
    assert(all.take(pieces@.len() as int) =~= all);
    if chunks.len() == 0 {
        let end: usize = if page_count >= 1 {
            page_count
        } else {
            1
        };
        let chunk = make_pdf_chunk(doc_id, text.to_owned(), 1, end, now);
        chunks.push(chunk);
        assert(chunks_view(chunks@) =~= seq![chunk@]);
    }
    chunks
}

/// Cuts the text of a PDF into chunks stamped with the time of the call.
pub fn chunk_pdf_text(doc_id: i64, text: &str, page_count: usize) -> (r: Vec<Chunk>)
    ensures
        r@.len() > 0,
        chunks_view(r@) == pdf_chunks(doc_id, text@, page_count, r@[0].created_at),
{
    let now = current_timestamp();
    let chunks = chunk_pdf_text_at(doc_id, text, page_count, now);
    proof {
        assert(pdf_chunks(doc_id, text@, page_count, now).len() > 0);
        assert(chunks_view(chunks@).len() == chunks@.len());
        assert(chunks_view(chunks@)[0] == chunks@[0]@);
        lemma_pdf_chunks_stamp(doc_id, text@, page_count, now, 0);
    }
    chunks
}

/// Every chunk of a PDF carries the time it was given.
pub proof fn lemma_pdf_chunks_stamp(
    doc_id: i64,
    text: Seq<char>,
    page_count: usize,
    now: i64,
    k: int,
)
    requires
        0 <= k < pdf_chunks(doc_id, text, page_count, now).len(),
    ensures
        pdf_chunks(doc_id, text, page_count, now)[k].created_at == now,
{
    let paragraphs = non_blank(split_paragraphs(text));
    if paragraph_chunks(doc_id, paragraphs, now).len() > 0 {
        lemma_paragraph_chunks_stamp(doc_id, paragraphs, now, k);
    }
}

/// Every paragraph chunk carries the time it was given.
pub proof fn lemma_paragraph_chunks_stamp(
    doc_id: i64,
    paragraphs: Seq<Seq<char>>,
    now: i64,
    k: int,
)
    requires
        0 <= k < paragraph_chunks(doc_id, paragraphs, now).len(),
    ensures
        paragraph_chunks(doc_id, paragraphs, now)[k].created_at == now,
    decreases paragraphs.len(),
{
    if paragraphs.len() > 0 {
        let before = paragraph_chunks(doc_id, paragraphs.drop_last(), now);
        if k < before.len() {
            lemma_paragraph_chunks_stamp(doc_id, paragraphs.drop_last(), now, k);
        }
    }
}

} // verus!
