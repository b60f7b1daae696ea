//! Structure-aware Markdown chunking.
//!
//! A document is scanned as a stream of events. Text is gathered under the
//! headings that enclose it and cut into chunks of bounded size; a code block
//! always becomes exactly one chunk, whatever its length.

use vstd::prelude::*;
use pulldown_cmark::CodeBlockKind::{Fenced, Indented};
use pulldown_cmark::Event::{End, Start};
use pulldown_cmark::{Event, Options, Parser, Tag, TagEnd};
use crate::chunker_laws::lemma_chunks_in_order;
use crate::clock::current_timestamp;
use crate::models::{
    clone_opt_string, clone_strings, opt_string_view, strings_view, Chunk, ChunkMetadata,
    ChunkMetadataView, ChunkView,
};
use crate::text::{chars_to_string, str_chars, trim, trim_chars};

verus! {

/// A text buffer longer than this is flushed at once.
pub const MAX_CHUNK_SIZE: usize = 1000;

/// A text chunk shorter than this is dropped as glue between blocks.
pub const MIN_CHUNK_SIZE: usize = 100;

/// One event of the Markdown scan, reduced to what chunking reads.
#[derive(Debug, Clone)]
pub enum MarkdownEvent {
    /// A heading of the given level (1 to 6) opens.
    HeadingStart(u8),
    /// The heading of the given level closes.
    HeadingEnd(u8),
    /// A code block opens: the fence's info string, or `None` if indented.
    CodeBlockStart(Option<String>),
    /// The code block closes.
    CodeBlockEnd,
    /// Literal text.
    Text(String),
    /// A soft or hard line break.
    LineBreak,
    /// An inline code span, without its backticks.
    InlineCode(String),
    /// Anything else; it does not affect chunking.
    Other,
}

/// The mathematical content of a [`MarkdownEvent`].
pub enum EventView {
    HeadingStart(u8),
    HeadingEnd(u8),
    CodeBlockStart(Option<Seq<char>>),
    CodeBlockEnd,
    Text(Seq<char>),
    LineBreak,
    InlineCode(Seq<char>),
    Other,
}

impl View for MarkdownEvent {
    type V = EventView;

    open spec fn view(&self) -> EventView {
        match *self {
            MarkdownEvent::HeadingStart(l) => EventView::HeadingStart(l),
            MarkdownEvent::HeadingEnd(l) => EventView::HeadingEnd(l),
            MarkdownEvent::CodeBlockStart(info) => EventView::CodeBlockStart(
                opt_string_view(info),
            ),
            MarkdownEvent::CodeBlockEnd => EventView::CodeBlockEnd,
            MarkdownEvent::Text(t) => EventView::Text(t@),
            MarkdownEvent::LineBreak => EventView::LineBreak,
            MarkdownEvent::InlineCode(c) => EventView::InlineCode(c@),
            MarkdownEvent::Other => EventView::Other,
        }
    }
}

/// The views of a sequence of events.
pub open spec fn events_view(v: Seq<MarkdownEvent>) -> Seq<EventView> {
    Seq::new(v.len(), |i: int| v[i]@)
}

/// A chunk as the chunker emits it.
#[derive(Debug, Clone)]
pub struct ChunkInfo {
    pub content: String,
    pub headers: Vec<String>,
    pub chunk_type: String,
    pub language: Option<String>,
    pub start_line: usize,
    pub end_line: usize,
}

/// The mathematical content of a [`ChunkInfo`].
pub struct ChunkInfoView {
    pub content: Seq<char>,
    pub headers: Seq<Seq<char>>,
    pub chunk_type: Seq<char>,
    pub language: Option<Seq<char>>,
    pub start_line: nat,
    pub end_line: nat,
}

impl View for ChunkInfo {
    type V = ChunkInfoView;

    open spec fn view(&self) -> ChunkInfoView {
        ChunkInfoView {
            content: self.content@,
            headers: strings_view(self.headers@),
            chunk_type: self.chunk_type@,
            language: opt_string_view(self.language),
            start_line: self.start_line as nat,
            end_line: self.end_line as nat,
        }
    }
}

/// The views of a sequence of chunks.
pub open spec fn infos_view(v: Seq<ChunkInfo>) -> Seq<ChunkInfoView> {
    Seq::new(v.len(), |i: int| v[i]@)
}

/// What the chunker keeps from one document to the next.
pub struct ChunkerView {
    /// Titles of the enclosing headings, outermost first.
    pub header_stack: Seq<Seq<char>>,
    /// Text gathered since the last flush.
    pub current: Seq<char>,
    /// Line on which the scan stands (1-based).
    pub current_line: nat,
    /// Line on which the text buffer began.
    pub chunk_start_line: nat,
    /// Chunks emitted so far.
    pub chunks: Seq<ChunkInfoView>,
}

/// The state of a scan: the chunker, and what is tracked inside a code block.
pub struct ScanState {
    pub base: ChunkerView,
    /// Whether the scan is inside a code block.
    pub in_code: bool,
    /// Body of the code block gathered so far.
    pub code: Seq<char>,
    /// Language of the open code block.
    pub code_lang: Option<Seq<char>>,
    /// Line on which the open code block began.
    pub code_start: nat,
}

/// Number of line feeds in `s`.
pub open spec fn count_newlines(s: Seq<char>) -> nat
    decreases s.len(),
{
    if s.len() == 0 {
        0
    } else {
        count_newlines(s.drop_last()) + if s.last() == '\n' {
            1nat
        } else {
            0nat
        }
    }
}

/// `stack` cut down to at most `n` entries.
pub open spec fn truncated<T>(stack: Seq<T>, n: int) -> Seq<T> {
    if 0 <= n < stack.len() {
        stack.subrange(0, n)
    } else {
        stack
    }
}

/// The chunk that a flush of `c` emits, if the buffer is long enough.
pub open spec fn pending_chunk(c: ChunkerView, kind: Seq<char>) -> ChunkInfoView {
    ChunkInfoView {
        content: trim(c.current),
        headers: c.header_stack,
        chunk_type: kind,
        language: None,
        start_line: c.chunk_start_line,
        end_line: c.current_line,
    }
}

/// Flushing the text buffer: emit it if its trimmed length reaches the
/// minimum, then start a fresh buffer at the current line.
pub open spec fn flushed(c: ChunkerView, kind: Seq<char>) -> ChunkerView {
    ChunkerView {
        chunks: if trim(c.current).len() >= MIN_CHUNK_SIZE {
            c.chunks.push(pending_chunk(c, kind))
        } else {
            c.chunks
        },
        current: Seq::empty(),
        chunk_start_line: c.current_line,
        ..c
    }
}

/// The code chunk that closing the open block of `s` emits, if the body is
/// not blank.
pub open spec fn code_chunk(s: ScanState) -> ChunkInfoView {
    ChunkInfoView {
        content: trim(s.code),
        headers: s.base.header_stack,
        chunk_type: "code"@,
        language: s.code_lang,
        start_line: s.code_start,
        end_line: s.base.current_line,
    }
}

/// The language of a code block: its fence info, unless that is empty.
pub open spec fn fence_language(info: Option<Seq<char>>) -> Option<Seq<char>> {
    match info {
        Some(l) => if l.len() > 0 {
            Some(l)
        } else {
            None
        },
        None => None,
    }
}

/// The scan with its line counter advanced by `n`.
pub open spec fn advanced(s: ScanState, n: nat) -> ScanState {
    ScanState { base: ChunkerView { current_line: s.base.current_line + n, ..s.base }, ..s }
}

/// The effect of one event on the scan.
pub open spec fn step(s: ScanState, e: EventView) -> ScanState {
    match e {
        EventView::HeadingStart(level) => {
            let f = flushed(s.base, "text"@);
            ScanState {
                base: ChunkerView { header_stack: truncated(f.header_stack, level - 1), ..f },
                ..s
            }
        },
        EventView::HeadingEnd(level) => ScanState {
            base: ChunkerView {
                header_stack: truncated(s.base.header_stack, level - 1).push(
                    trim(s.base.current),
                ),
                current: Seq::empty(),
                ..s.base
            },
            ..s
        },
        EventView::CodeBlockStart(info) => {
            let f = flushed(s.base, "text"@);
            ScanState {
                base: f,
                in_code: true,
                code: Seq::empty(),
                code_lang: fence_language(info),
                code_start: f.current_line,
            }
        },
        EventView::CodeBlockEnd => ScanState {
            base: ChunkerView {
                chunks: if trim(s.code).len() > 0 {
                    s.base.chunks.push(code_chunk(s))
                } else {
                    s.base.chunks
                },
                chunk_start_line: s.base.current_line,
                ..s.base
            },
            in_code: false,
            code: Seq::empty(),
            code_lang: None,
            ..s
        },
        EventView::Text(t) => {
            let a = if s.in_code {
                ScanState { code: s.code + t, ..s }
            } else {
                let b = ChunkerView { current: s.base.current + t, ..s.base };
                ScanState {
                    base: if b.current.len() > MAX_CHUNK_SIZE {
                        flushed(b, "text"@)
                    } else {
                        b
                    },
                    ..s
                }
            };
            advanced(a, count_newlines(t))
        },
        EventView::LineBreak => {
            let a = if s.in_code {
                ScanState { code: s.code.push('\n'), ..s }
            } else {
                ScanState {
                    base: ChunkerView { current: s.base.current.push('\n'), ..s.base },
                    ..s
                }
            };
            advanced(a, 1)
        },
        EventView::InlineCode(c) => ScanState {
            base: ChunkerView {
                current: (s.base.current.push('`') + c).push('`'),
                ..s.base
            },
            ..s
        },
        EventView::Other => s,
    }
}

/// The scan after all of `events`, taken in order from `s`.
pub open spec fn run(s: ScanState, events: Seq<EventView>) -> ScanState
    decreases events.len(),
{
    if events.len() == 0 {
        s
    } else {
        step(run(s, events.drop_last()), events.last())
    }
}

/// Number of lines by which one event advances the scan.
pub open spec fn event_lines(e: EventView) -> nat {
    match e {
        EventView::Text(t) => count_newlines(t),
        EventView::LineBreak => 1,
        _ => 0,
    }
}

/// Number of lines by which `events` advance the scan.
pub open spec fn line_breaks(events: Seq<EventView>) -> nat
    decreases events.len(),
{
    if events.len() == 0 {
        0
    } else {
        line_breaks(events.drop_last()) + event_lines(events.last())
    }
}

/// Heading levels start at 1.
pub open spec fn event_well_formed(e: EventView) -> bool {
    match e {
        EventView::HeadingStart(l) => l >= 1,
        EventView::HeadingEnd(l) => l >= 1,
        _ => true,
    }
}

/// Every heading event carries a level of at least 1.
pub open spec fn events_well_formed(events: Seq<EventView>) -> bool {
    forall|i: int| 0 <= i < events.len() ==> event_well_formed(#[trigger] events[i])
}

/// The chunker before any input: no heading, an empty buffer, line 1.
pub open spec fn initial_chunker() -> ChunkerView {
    ChunkerView {
        header_stack: Seq::empty(),
        current: Seq::empty(),
        current_line: 1,
        chunk_start_line: 1,
        chunks: Seq::empty(),
    }
}

/// The scan as it stands when a document begins: outside any code block.
pub open spec fn scan_start(c: ChunkerView) -> ScanState {
    ScanState { base: c, in_code: false, code: Seq::empty(), code_lang: None, code_start: 0 }
}

/// The chunker after a whole document: every event in order, then a last
/// flush of the text buffer.
pub open spec fn chunk_model(c: ChunkerView, events: Seq<EventView>) -> ChunkerView {
    flushed(run(scan_start(c), events).base, "text"@)
}

/// Whether a document can be scanned from `c`: its heading levels are valid
/// and its line numbers do not pass the largest `usize`.
pub open spec fn scannable(c: ChunkerView, events: Seq<EventView>) -> bool {
    events_well_formed(events) && c.current_line + line_breaks(events) <= usize::MAX
}

/// One event moves the line counter by its own number of lines.
pub proof fn lemma_step_line(s: ScanState, e: EventView)
    ensures
        step(s, e).base.current_line == s.base.current_line + event_lines(e),
{
}

/// A prefix of a document has no more lines than the document.
pub proof fn lemma_line_breaks_take(events: Seq<EventView>, k: int)
    requires
        0 <= k <= events.len(),
    ensures
        line_breaks(events.take(k)) <= line_breaks(events),
    decreases events.len(),
{
    if k == events.len() {
        assert(events.take(k) =~= events);
    } else {
        assert(events.drop_last().take(k) =~= events.take(k));
        lemma_line_breaks_take(events.drop_last(), k);
    }
}

/// Why a document could not be chunked.
#[derive(Debug, Clone, Copy, PartialEq, Eq, Structural)]
pub enum ChunkError {
    /// A heading event carries level 0.
    MalformedEvents,
    /// The line counter would pass the largest `usize`.
    TooManyLines,
}

/// Structure-aware Markdown chunker: code blocks are never split, and every
/// chunk carries the headings that enclose it.
pub struct MarkdownChunker {
    header_stack: Vec<String>,
    current_chunk: Vec<char>,
    current_line: usize,
    chunk_start_line: usize,
    chunks: Vec<ChunkInfo>,
}

impl View for MarkdownChunker {
    type V = ChunkerView;

    closed spec fn view(&self) -> ChunkerView {
        ChunkerView {
            header_stack: strings_view(self.header_stack@),
            current: self.current_chunk@,
            current_line: self.current_line as nat,
            chunk_start_line: self.chunk_start_line as nat,
            chunks: infos_view(self.chunks@),
        }
    }
}

/// What the scan tracks while inside a code block.
struct CodeScan {
    in_code: bool,
    code: Vec<char>,
    code_lang: Option<String>,
    code_start: usize,
}

impl CodeScan {
    spec fn state(&self, base: ChunkerView) -> ScanState {
        ScanState {
            base,
            in_code: self.in_code,
            code: self.code@,
            code_lang: opt_string_view(self.code_lang),
            code_start: self.code_start as nat,
        }
    }
}

/// Counts the line feeds in `t`.
pub fn count_newlines_in(t: &Vec<char>) -> (n: usize)
    ensures
        n == count_newlines(t@),
{
    let mut n: usize = 0;
    let mut i: usize = 0;
    while i < t.len()
        invariant
            i <= t.len(),
            n <= i,
            n == count_newlines(t@.take(i as int)),
        decreases t.len() - i,
    {
        assert(t@.take(i as int + 1).drop_last() =~= t@.take(i as int));
        if t[i] == '\n' {
            n += 1;
        }
        i += 1;
    }
    assert(t@.take(t.len() as int) =~= t@);
    n
}

/// Copies one chunk.
pub fn clone_info(c: &ChunkInfo) -> (r: ChunkInfo)
    ensures
        r@ == c@,
{
    ChunkInfo {
        content: c.content.clone(),
        headers: clone_strings(&c.headers),
        chunk_type: c.chunk_type.clone(),
        language: clone_opt_string(&c.language),
        start_line: c.start_line,
        end_line: c.end_line,
    }
}

/// Copies a list of chunks.
pub fn clone_infos(v: &Vec<ChunkInfo>) -> (r: Vec<ChunkInfo>)
    ensures
        infos_view(r@) == infos_view(v@),
{
    let mut r: Vec<ChunkInfo> = Vec::new();
    let mut i: usize = 0;
    while i < v.len()
        invariant
            i <= v.len(),
            r@.len() == i,
            forall|k: int| 0 <= k < i ==> r@[k]@ == v@[k]@,
        decreases v.len() - i,
    {
        r.push(clone_info(&v[i]));
        i += 1;
    }
    assert(infos_view(r@) =~= infos_view(v@));
    r
}

impl MarkdownChunker {
    /// A chunker that has seen no input.
    pub fn new() -> (r: Self)
        ensures
            r@ == initial_chunker(),
    {
        let r = MarkdownChunker {
            header_stack: Vec::new(),
            current_chunk: Vec::new(),
            current_line: 1,
            chunk_start_line: 1,
            chunks: Vec::new(),
        };
        assert(r@.header_stack =~= Seq::empty());
        assert(r@.chunks =~= Seq::empty());
        r
    }

    /// Flushes the text buffer: emits it as a chunk of the given type if its
    /// trimmed length reaches the minimum, and starts a fresh buffer.
    pub fn flush_chunk(&mut self, chunk_type: &str)
        ensures
            final(self)@ == flushed(old(self)@, chunk_type@),
    {
        let content = trim_chars(&self.current_chunk);
        if content.len() >= MIN_CHUNK_SIZE {
            let chunk = ChunkInfo {
                content: chars_to_string(&content),
                headers: clone_strings(&self.header_stack),
                chunk_type: chunk_type.to_owned(),
                language: None,
                start_line: self.chunk_start_line,
                end_line: self.current_line,
            };
            assert(chunk@ == pending_chunk(old(self)@, chunk_type@));
            self.chunks.push(chunk);
            assert(infos_view(self.chunks@) =~= infos_view(old(self).chunks@).push(chunk@));
        }
        self.current_chunk.clear();
        self.chunk_start_line = self.current_line;
    }

    /// Cuts the header stack down to the headings above `level`.
    fn truncate_headers(&mut self, level: u8)
        requires
            level >= 1,
        ensures
            final(self)@ == (ChunkerView {
                header_stack: truncated(old(self)@.header_stack, level - 1),
                ..old(self)@
            }),
    {
        let keep: usize = (level - 1) as usize;
        self.header_stack.truncate(keep);
        assert(strings_view(self.header_stack@) =~= truncated(
            strings_view(old(self).header_stack@),
            level - 1,
        ));
    }

    /// Applies one event to the chunker and to the code-block tracker.
    fn apply(&mut self, scan: &mut CodeScan, event: &MarkdownEvent)
        requires
            event_well_formed(event@),
            old(self)@.current_line + event_lines(event@) <= usize::MAX,
        ensures
            final(scan).state(final(self)@) == step(old(scan).state(old(self)@), event@),
    {
        match event {
            MarkdownEvent::HeadingStart(level) => {
                self.flush_chunk("text");
                self.truncate_headers(*level);
            },
            MarkdownEvent::HeadingEnd(level) => {
                let title = chars_to_string(&trim_chars(&self.current_chunk));
                self.truncate_headers(*level);
                let ghost before = self.header_stack@;
                self.header_stack.push(title);
                assert(strings_view(self.header_stack@) =~= strings_view(before).push(title@));
                self.current_chunk.clear();
            },
            MarkdownEvent::CodeBlockStart(info) => {
                self.flush_chunk("text");
                scan.in_code = true;
                scan.code_start = self.current_line;
                scan.code.clear();
                scan.code_lang = match info {
                    Some(lang) => {
                        if lang.as_str().is_empty() {
                            None
                        } else {
                            Some(lang.clone())
                        }
                    },
                    None => None,
                };
            },
            MarkdownEvent::CodeBlockEnd => {
                let content = trim_chars(&scan.code);
                if content.len() > 0 {
                    let chunk = ChunkInfo {
                        content: chars_to_string(&content),
                        headers: clone_strings(&self.header_stack),
                        chunk_type: "code".to_owned(),
                        language: clone_opt_string(&scan.code_lang),
                        start_line: scan.code_start,
                        end_line: self.current_line,
                    };
                    assert(chunk@ == code_chunk(old(scan).state(old(self)@)));
                    self.chunks.push(chunk);
                    assert(infos_view(self.chunks@) =~= infos_view(old(self).chunks@).push(
                        chunk@,
                    ));
                }
                scan.in_code = false;
                scan.code.clear();
                scan.code_lang = None;
                self.chunk_start_line = self.current_line;
            },
            MarkdownEvent::Text(text) => {
                let mut chars = str_chars(text.as_str());
                let lines = count_newlines_in(&chars);
                if scan.in_code {
                    scan.code.append(&mut chars);
                } else {
                    self.current_chunk.append(&mut chars);
                    if self.current_chunk.len() > MAX_CHUNK_SIZE {
                        self.flush_chunk("text");
                    }
                }
                self.current_line = self.current_line + lines;
            },
            MarkdownEvent::LineBreak => {
                if scan.in_code {
                    scan.code.push('\n');
                } else {
                    self.current_chunk.push('\n');
                }
                self.current_line = self.current_line + 1;
            },
            MarkdownEvent::InlineCode(code) => {
                let mut chars = str_chars(code.as_str());
                self.current_chunk.push('`');
                self.current_chunk.append(&mut chars);
                self.current_chunk.push('`');
            },
            MarkdownEvent::Other => {},
        }
    }

    /// Chunks a document given as its events, continuing from the chunker's
    /// present state, and returns every chunk emitted so far.
    pub fn chunk_events(&mut self, events: &Vec<MarkdownEvent>) -> (r: Vec<ChunkInfo>)
        requires
            scannable(old(self)@, events_view(events@)),
        ensures
            final(self)@ == chunk_model(old(self)@, events_view(events@)),
            infos_view(r@) == final(self)@.chunks,
    {
        let ghost start = self@;
        let ghost evs = events_view(events@);
        let mut scan = CodeScan {
            in_code: false,
            code: Vec::new(),
            code_lang: None,
            code_start: 0,
        };
        let mut i: usize = 0;
        assert(evs.take(0) =~= Seq::<EventView>::empty());
        while i < events.len()
            invariant
                i <= events.len(),
                evs == events_view(events@),
                scannable(start, evs),
                scan.state(self@) == run(scan_start(start), evs.take(i as int)),
                self@.current_line == start.current_line + line_breaks(evs.take(i as int)),
            decreases events.len() - i,
        {
            proof {
                assert(evs.take(i as int + 1).drop_last() =~= evs.take(i as int));
                assert(evs.take(i as int + 1).last() == evs[i as int]);
                lemma_line_breaks_take(evs, i as int + 1);
                lemma_step_line(scan.state(self@), evs[i as int]);
            }
            self.apply(&mut scan, &events[i]);
            i += 1;
        }
        assert(evs.take(events.len() as int) =~= evs);
        self.flush_chunk("text");
        clone_infos(&self.chunks)
    }
}

/// The events that a CommonMark scan of `text` yields, with tables,
/// footnotes, strikethrough and task lists switched on.
pub uninterp spec fn markdown_events(text: Seq<char>) -> Seq<EventView>;

/// Scans a document with `pulldown_cmark::Parser::new_ext` and keeps of each
/// event what chunking reads. The contract only gives the outcome its name:
/// the same text always yields the same events.
#[verifier::external_body]
fn parse_markdown(markdown: &str) -> (r: Vec<MarkdownEvent>)
    ensures
        events_view(r@) == markdown_events(markdown@),
{
    let options = Options::ENABLE_TABLES | Options::ENABLE_FOOTNOTES
        | Options::ENABLE_STRIKETHROUGH | Options::ENABLE_TASKLISTS;
    Parser::new_ext(markdown, options).map(|event| match event {
        Start(Tag::Heading { level, .. }) => MarkdownEvent::HeadingStart(level as u8),
        End(TagEnd::Heading(level)) => MarkdownEvent::HeadingEnd(level as u8),
        Start(Tag::CodeBlock(Fenced(info))) => MarkdownEvent::CodeBlockStart(Some(info.to_string())),
        Start(Tag::CodeBlock(Indented)) => MarkdownEvent::CodeBlockStart(None),
        End(TagEnd::CodeBlock) => MarkdownEvent::CodeBlockEnd,
        Event::Text(text) => MarkdownEvent::Text(text.to_string()),
        Event::Code(code) => MarkdownEvent::InlineCode(code.to_string()),
        Event::SoftBreak | Event::HardBreak => MarkdownEvent::LineBreak,
        _ => MarkdownEvent::Other,
    }).collect()
}

/// Tells whether every heading event carries a level of at least 1.
pub fn events_are_well_formed(events: &Vec<MarkdownEvent>) -> (b: bool)
    ensures
        b == events_well_formed(events_view(events@)),
{
    let ghost evs = events_view(events@);
    let mut i: usize = 0;
    while i < events.len()
        invariant
            i <= events.len(),
            evs == events_view(events@),
            forall|k: int| 0 <= k < i ==> event_well_formed(#[trigger] evs[k]),
        decreases events.len() - i,
    {
        let ok = match &events[i] {
            MarkdownEvent::HeadingStart(level) => *level >= 1,
            MarkdownEvent::HeadingEnd(level) => *level >= 1,
            _ => true,
        };
        if !ok {
            assert(!event_well_formed(evs[i as int]));
            return false;
        }
        i += 1;
    }
    true
}

/// Counts the lines by which `events` advance a scan, giving up as soon as
/// the count passes `limit`.
pub fn count_line_breaks(events: &Vec<MarkdownEvent>, limit: usize) -> (r: Option<usize>)
    ensures
        match r {
            Some(n) => n == line_breaks(events_view(events@)) && n <= limit,
            None => line_breaks(events_view(events@)) > limit,
        },
{
    let ghost evs = events_view(events@);
    let mut total: usize = 0;
    let mut i: usize = 0;
    assert(evs.take(0) =~= Seq::<EventView>::empty());
    while i < events.len()
        invariant
            i <= events.len(),
            evs == events_view(events@),
            total == line_breaks(evs.take(i as int)),
            total <= limit,
        decreases events.len() - i,
    {
        let lines: usize = match &events[i] {
            MarkdownEvent::Text(text) => count_newlines_in(&str_chars(text.as_str())),
            MarkdownEvent::LineBreak => 1,
            _ => 0,
        };
        proof {
            assert(evs.take(i as int + 1).drop_last() =~= evs.take(i as int));
            assert(evs.take(i as int + 1).last() == evs[i as int]);
            assert(lines == event_lines(evs[i as int]));
            lemma_line_breaks_take(evs, i as int + 1);
        }
        if lines > limit - total {
            return None;
        }
        total = total + lines;
        i += 1;
    }
    assert(evs.take(events.len() as int) =~= evs);
    Some(total)
}

/// The error that a scan over `events` reports when it cannot run: bad
/// heading levels come before too many lines.
pub open spec fn scan_error(events: Seq<EventView>) -> ChunkError {
    if !events_well_formed(events) {
        ChunkError::MalformedEvents
    } else {
        ChunkError::TooManyLines
    }
}

impl MarkdownChunker {
    /// Tells whether `events` can be scanned from the present state, and why
    /// not if they cannot.
    pub fn check_events(&self, events: &Vec<MarkdownEvent>) -> (r: Option<ChunkError>)
        ensures
            match r {
                None => scannable(self@, events_view(events@)),
                Some(e) => !scannable(self@, events_view(events@)) && e == scan_error(
                    events_view(events@),
                ),
            },
    {
        if !events_are_well_formed(events) {
            return Some(ChunkError::MalformedEvents);
        }
        match count_line_breaks(events, usize::MAX - self.current_line) {
            Some(_) => None,
            None => Some(ChunkError::TooManyLines),
        }
    }

    /// Chunks a Markdown document, continuing from the chunker's present
    /// state, and returns every chunk emitted so far. Fails, leaving the
    /// chunker untouched, only if the document cannot be scanned.
    pub fn chunk(&mut self, markdown: &str) -> (r: Result<Vec<ChunkInfo>, ChunkError>)
        ensures
            match r {
                Ok(v) => {
                    &&& scannable(old(self)@, markdown_events(markdown@))
                    &&& final(self)@ == chunk_model(old(self)@, markdown_events(markdown@))
                    &&& infos_view(v@) == final(self)@.chunks
                },
                Err(e) => {
                    &&& !scannable(old(self)@, markdown_events(markdown@))
                    &&& final(self)@ == old(self)@
                    &&& e == scan_error(markdown_events(markdown@))
                },
            },
    {
        let events = parse_markdown(markdown);
        match self.check_events(&events) {
            Some(e) => Err(e),
            None => Ok(self.chunk_events(&events)),
        }
    }
}

/// The stored chunk made of an emitted one: no id yet, the given document
/// and creation time, and the chunker's findings as metadata.
pub open spec fn chunk_of(doc_id: i64, info: ChunkInfoView, now: i64) -> ChunkView {
    ChunkView {
        id: 0,
        doc_id,
        content: info.content,
        metadata: Some(
            ChunkMetadataView {
                headers: info.headers,
                chunk_type: info.chunk_type,
                language: info.language,
            },
        ),
        start_line: info.start_line as usize,
        end_line: info.end_line as usize,
        created_at: now,
    }
}

/// Turns emitted chunks into stored ones, in order.
pub fn chunks_from_infos(doc_id: i64, infos: &Vec<ChunkInfo>, now: i64) -> (r: Vec<Chunk>)
    ensures
        r@.len() == infos@.len(),
        forall|i: int| 0 <= i < r@.len() ==> (#[trigger] r@[i])@ == chunk_of(doc_id, infos@[i]@, now),
{
    let mut r: Vec<Chunk> = Vec::new();
    let mut i: usize = 0;
    while i < infos.len()
        invariant
            i <= infos.len(),
            r@.len() == i,
            forall|k: int| 0 <= k < i ==> (#[trigger] r@[k])@ == chunk_of(doc_id, infos@[k]@, now),
        decreases infos.len() - i,
    {
        let info = &infos[i];
        let chunk = Chunk {
            id: 0,
            doc_id,
            content: info.content.clone(),
            metadata: Some(
                ChunkMetadata {
                    headers: clone_strings(&info.headers),
                    chunk_type: info.chunk_type.clone(),
                    language: clone_opt_string(&info.language),
                },
            ),
            start_line: info.start_line,
            end_line: info.end_line,
            created_at: now,
        };
        assert(chunk@ == chunk_of(doc_id, info@, now));
        r.push(chunk);
        i += 1;
    }
    r
}

/// Chunks a Markdown document from scratch into chunks ready to be stored
/// under `doc_id`, all stamped with the time of the call. Every chunk
/// starts on line 1 or later and ends no earlier than it starts.
pub fn chunk_markdown(doc_id: i64, markdown: &str) -> (r: Result<Vec<Chunk>, ChunkError>)
    ensures
        match r {
            Ok(v) => {
                let found = chunk_model(initial_chunker(), markdown_events(markdown@)).chunks;
                &&& scannable(initial_chunker(), markdown_events(markdown@))
                &&& v@.len() == found.len()
                &&& forall|i: int|
                    0 <= i < v@.len() ==> (#[trigger] v@[i])@ == chunk_of(
                        doc_id,
                        found[i],
                        v@[0].created_at,
                    )
                &&& forall|i: int|
                    0 <= i < v@.len() ==> 1 <= (#[trigger] v@[i]).start_line <= v@[i].end_line
            },
            Err(e) => {
                &&& !scannable(initial_chunker(), markdown_events(markdown@))
                &&& e == scan_error(markdown_events(markdown@))
            },
        },
{
    let mut chunker = MarkdownChunker::new();
    match chunker.chunk(markdown) {
        Ok(infos) => {
            let now = current_timestamp();
            let chunks = chunks_from_infos(doc_id, &infos, now);
            assert forall|i: int| 0 <= i < chunks@.len() implies (#[trigger] chunks@[i])@
                == chunk_of(doc_id, chunker@.chunks[i], chunks@[0].created_at) by {
                assert(infos_view(infos@)[i] == infos@[i]@);
                assert(chunks@[0]@ == chunk_of(doc_id, infos@[0]@, now));
            }
            assert forall|i: int| 0 <= i < chunks@.len() implies 1 <= (
            #[trigger] chunks@[i]).start_line <= chunks@[i].end_line by {
                assert(infos_view(infos@)[i] == infos@[i]@);
                assert(chunks@[i]@ == chunk_of(doc_id, infos@[i]@, now));
                lemma_chunks_in_order(markdown_events(markdown@), i);
            }
            Ok(chunks)
        },
        Err(e) => Err(e),
    }
}

} // verus!
