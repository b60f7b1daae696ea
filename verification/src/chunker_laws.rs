//! What holds of every scan: chunks are only ever added, each carries the
//! header stack in force when it was emitted, a heading resets everything
//! below its own depth, and code blocks come out whole.

use vstd::prelude::*;
use crate::chunker::{
    chunk_model, flushed, initial_chunker, run, scan_start, step, truncated, ChunkInfoView,
    ChunkerView, EventView, ScanState, MIN_CHUNK_SIZE,
};
use crate::text::{is_trimmed, lemma_trim_is_trimmed, trim};

verus! {

/// `b` continues `a`: it begins with the same items.
pub open spec fn grows_to<T>(a: Seq<T>, b: Seq<T>) -> bool {
    a.len() <= b.len() && forall|i: int| 0 <= i < a.len() ==> a[i] == b[i]
}

/// Scanning one more event is one more step.
pub proof fn lemma_run_next(s: ScanState, events: Seq<EventView>, n: int)
    requires
        0 <= n < events.len(),
    ensures
        run(s, events.take(n + 1)) == step(run(s, events.take(n)), events[n]),
{
    assert(events.take(n + 1).drop_last() =~= events.take(n));
    assert(events.take(n + 1).last() == events[n]);
}

/// A step never removes or alters an emitted chunk.
pub proof fn lemma_step_grows(s: ScanState, e: EventView)
    ensures
        grows_to(s.base.chunks, step(s, e).base.chunks),
{
}

/// Chunks emitted by a prefix of a document are the first chunks of the
/// whole document.
pub proof fn lemma_chunks_grow(s: ScanState, events: Seq<EventView>, n: int)
    requires
        0 <= n <= events.len(),
    ensures
        grows_to(run(s, events.take(n)).base.chunks, run(s, events).base.chunks),
    decreases events.len() - n,
{
    if n == events.len() {
        assert(events.take(n) =~= events);
    } else {
        lemma_run_next(s, events, n);
        lemma_step_grows(run(s, events.take(n)), events[n]);
        lemma_chunks_grow(s, events, n + 1);
    }
}

/// A chunk that a step emits carries the header stack in force before it.
pub proof fn lemma_step_headers(s: ScanState, e: EventView, k: int)
    requires
        s.base.chunks.len() <= k < step(s, e).base.chunks.len(),
    ensures
        step(s, e).base.chunks[k].headers == s.base.header_stack,
{
}

/// Header context: a chunk emitted by the `n`-th event of a document
/// carries exactly the header stack in force just before that event.
pub proof fn lemma_chunk_headers(s: ScanState, events: Seq<EventView>, n: int, k: int)
    requires
        0 <= n < events.len(),
        run(s, events.take(n)).base.chunks.len() <= k < run(s, events.take(n + 1)).base.chunks.len(),
    ensures
        k < run(s, events).base.chunks.len(),
        run(s, events).base.chunks[k].headers == run(s, events.take(n)).base.header_stack,
{
    lemma_run_next(s, events, n);
    lemma_step_headers(run(s, events.take(n)), events[n], k);
    lemma_chunks_grow(s, events, n + 1);
}

/// Every chunk of a scan beyond those it started with was emitted by one
/// of its events.
pub proof fn lemma_chunk_emitter(s: ScanState, events: Seq<EventView>, k: int) -> (n: int)
    requires
        s.base.chunks.len() <= k < run(s, events).base.chunks.len(),
    ensures
        0 <= n < events.len(),
        run(s, events.take(n)).base.chunks.len() <= k < run(s, events.take(n + 1)).base.chunks.len(),
    decreases events.len(),
{
    if events.len() == 0 {
        0
    } else {
        let front = events.drop_last();
        let last = events.len() - 1;
        assert(events.take(last) =~= front);
        assert(events.take(last + 1) =~= events);
        if k < run(s, front).base.chunks.len() {
            let n = lemma_chunk_emitter(s, front, k);
            assert(front.take(n) =~= events.take(n));
            assert(front.take(n + 1) =~= events.take(n + 1));
            n
        } else {
            last
        }
    }
}

/// The chunk that the flush at the end of a document emits, if any,
/// carries the header stack in force at the end.
pub proof fn lemma_final_flush_headers(c: ChunkerView, events: Seq<EventView>, k: int)
    requires
        run(scan_start(c), events).base.chunks.len() <= k < chunk_model(c, events).chunks.len(),
    ensures
        chunk_model(c, events).chunks[k].headers == run(
            scan_start(c),
            events,
        ).base.header_stack,
        grows_to(run(scan_start(c), events).base.chunks, chunk_model(c, events).chunks),
{
}

/// For each entry of the header stack after `events`, the position of the
/// heading-end event that pushed it; `-1` for an entry that was there
/// before the scan began with `initial` entries. Only the heading events
/// and their levels decide it: a heading keeps the entries above its own
/// depth and replaces the rest.
pub open spec fn origins(initial: nat, events: Seq<EventView>) -> Seq<int>
    decreases events.len(),
{
    if events.len() == 0 {
        Seq::new(initial, |j: int| -1)
    } else {
        let before = origins(initial, events.drop_last());
        match events.last() {
            EventView::HeadingStart(level) => truncated(before, level - 1),
            EventView::HeadingEnd(level) => truncated(before, level - 1).push(events.len() - 1),
            _ => before,
        }
    }
}

/// Header context, by origin: the header stack after `events` has one
/// entry for each open heading, and each entry pushed during the scan is
/// the trimmed text gathered when its heading closed.
pub proof fn lemma_header_origins(s: ScanState, events: Seq<EventView>)
    ensures
        run(s, events).base.header_stack.len() == origins(
            s.base.header_stack.len(),
            events,
        ).len(),
        forall|j: int|
            0 <= j < run(s, events).base.header_stack.len() ==> {
                let at = #[trigger] origins(s.base.header_stack.len(), events)[j];
                &&& -1 <= at < events.len()
                &&& at == -1 ==> j < s.base.header_stack.len() && run(
                    s,
                    events,
                ).base.header_stack[j] == s.base.header_stack[j]
                &&& at >= 0 ==> events[at] is HeadingEnd && run(s, events).base.header_stack[j]
                    == trim(run(s, events.take(at)).base.current)
            },
    decreases events.len(),
{
    let h0 = s.base.header_stack.len();
    if events.len() > 0 {
        let front = events.drop_last();
        let last = events.len() - 1;
        lemma_header_origins(s, front);
        let before = run(s, front);
        assert(events.take(last) =~= front);
        assert forall|j: int| 0 <= j < run(s, events).base.header_stack.len() implies {
            let at = #[trigger] origins(h0, events)[j];
            &&& -1 <= at < events.len()
            &&& at == -1 ==> j < h0 && run(s, events).base.header_stack[j]
                == s.base.header_stack[j]
            &&& at >= 0 ==> events[at] is HeadingEnd && run(s, events).base.header_stack[j]
                == trim(run(s, events.take(at)).base.current)
        } by {
            let at = origins(h0, events)[j];
            if j < origins(h0, front).len() && at == origins(h0, front)[j] {
                assert(run(s, events).base.header_stack[j] == before.base.header_stack[j]);
                if at >= 0 {
                    assert(front.take(at) =~= events.take(at));
                }
            }
        }
    }
}

/// Reset on a shallower header: once a heading of depth `level` has opened
/// at position `i`, every later header stack holds, from that depth down,
/// only headings that closed after `i`. Nothing at that depth or deeper
/// survives from before the heading.
pub proof fn lemma_reset_on_shallower(
    initial: nat,
    events: Seq<EventView>,
    i: int,
    level: u8,
    n: int,
    j: int,
)
    requires
        0 <= i < n <= events.len(),
        events[i] == EventView::HeadingStart(level),
        level >= 1,
        level - 1 <= j < origins(initial, events.take(n)).len(),
    ensures
        origins(initial, events.take(n))[j] > i,
    decreases n,
{
    let prefix = events.take(n);
    assert(prefix.drop_last() =~= events.take(n - 1));
    assert(prefix.last() == events[n - 1]);
    if n - 1 == i {
        // the heading itself has just cut the stack below position `j`
    } else {
        let before = origins(initial, events.take(n - 1));
        if j < before.len() && origins(initial, prefix)[j] == before[j] {
            lemma_reset_on_shallower(initial, events, i, level, n - 1, j);
        }
    }
}

/// What a scan tracks of code blocks alone.
pub struct CodeTrack {
    /// Whether a code block is open.
    pub in_code: bool,
    /// Body of the open block so far.
    pub body: Seq<char>,
    /// Bodies of the blocks that have closed, in source order.
    pub bodies: Seq<Seq<char>>,
}

/// The effect of one event on the code blocks.
pub open spec fn track_step(t: CodeTrack, e: EventView) -> CodeTrack {
    match e {
        EventView::CodeBlockStart(_) => CodeTrack { in_code: true, body: Seq::empty(), ..t },
        EventView::CodeBlockEnd => CodeTrack {
            in_code: false,
            body: Seq::empty(),
            bodies: t.bodies.push(t.body),
        },
        EventView::Text(text) => if t.in_code {
            CodeTrack { body: t.body + text, ..t }
        } else {
            t
        },
        EventView::LineBreak => if t.in_code {
            CodeTrack { body: t.body.push('\n'), ..t }
        } else {
            t
        },
        _ => t,
    }
}

/// The code blocks of a document, read off its events alone.
pub open spec fn track(events: Seq<EventView>) -> CodeTrack
    decreases events.len(),
{
    if events.len() == 0 {
        CodeTrack { in_code: false, body: Seq::empty(), bodies: Seq::empty() }
    } else {
        track_step(track(events.drop_last()), events.last())
    }
}

/// The bodies of the code blocks of a document, in source order.
pub open spec fn code_bodies(events: Seq<EventView>) -> Seq<Seq<char>> {
    track(events).bodies
}

/// The bodies that become chunks: each trimmed, the blank ones left out.
pub open spec fn kept_bodies(bodies: Seq<Seq<char>>) -> Seq<Seq<char>>
    decreases bodies.len(),
{
    if bodies.len() == 0 {
        Seq::empty()
    } else if trim(bodies.last()).len() > 0 {
        kept_bodies(bodies.drop_last()).push(trim(bodies.last()))
    } else {
        kept_bodies(bodies.drop_last())
    }
}

/// The contents of the code chunks among `chunks`, in order.
pub open spec fn code_contents(chunks: Seq<ChunkInfoView>) -> Seq<Seq<char>>
    decreases chunks.len(),
{
    if chunks.len() == 0 {
        Seq::empty()
    } else if chunks.last().chunk_type == "code"@ {
        code_contents(chunks.drop_last()).push(chunks.last().content)
    } else {
        code_contents(chunks.drop_last())
    }
}

/// A text chunk is not a code chunk.
pub proof fn lemma_text_is_not_code()
    ensures
        "text"@ != "code"@,
{
    reveal_strlit("text");
    reveal_strlit("code");
    assert("text"@[0] == 't');
    assert("code"@[0] == 'c');
}

/// A flush adds no code chunk.
pub proof fn lemma_flush_keeps_code(c: ChunkerView)
    ensures
        code_contents(flushed(c, "text"@).chunks) == code_contents(c.chunks),
{
    lemma_text_is_not_code();
    if trim(c.current).len() >= MIN_CHUNK_SIZE {
        let after = flushed(c, "text"@).chunks;
        assert(after.drop_last() =~= c.chunks);
    }
}

/// Code preservation, step by step: the code chunks emitted so far are the
/// closed code blocks, trimmed and without the blank ones, and the open
/// block is gathered verbatim.
pub proof fn lemma_code_tracked(c: ChunkerView, events: Seq<EventView>)
    ensures
        run(scan_start(c), events).in_code == track(events).in_code,
        run(scan_start(c), events).code == track(events).body,
        code_contents(run(scan_start(c), events).base.chunks) == code_contents(c.chunks)
            + kept_bodies(code_bodies(events)),
    decreases events.len(),
{
    if events.len() == 0 {
        assert(code_contents(c.chunks) + kept_bodies(code_bodies(events)) =~= code_contents(
            c.chunks,
        ));
    } else {
        let front = events.drop_last();
        lemma_code_tracked(c, front);
        let s = run(scan_start(c), front);
        let t = track(front);
        let after = step(s, events.last());
        match events.last() {
            EventView::HeadingStart(level) => {
                lemma_flush_keeps_code(s.base);
            },
            EventView::CodeBlockStart(info) => {
                lemma_flush_keeps_code(s.base);
            },
            EventView::CodeBlockEnd => {
                assert(track(events).bodies.drop_last() =~= t.bodies);
                if trim(s.code).len() > 0 {
                    assert(after.base.chunks.drop_last() =~= s.base.chunks);
                    assert(code_contents(after.base.chunks) =~= code_contents(c.chunks)
                        + kept_bodies(code_bodies(events)));
                }
            },
            EventView::Text(text) => {
                if !s.in_code {
                    let b = ChunkerView { current: s.base.current + text, ..s.base };
                    lemma_flush_keeps_code(b);
                }
            },
            _ => {},
        }
    }
}

/// Code preservation: the code chunks of a chunked document are exactly
/// its code blocks in source order, each whole and trimmed, the blank ones
/// left out; no block is split and none is merged with another.
pub proof fn lemma_code_preserved(c: ChunkerView, events: Seq<EventView>)
    ensures
        code_contents(chunk_model(c, events).chunks) == code_contents(c.chunks) + kept_bodies(
            code_bodies(events),
        ),
{
    lemma_code_tracked(c, events);
    lemma_flush_keeps_code(run(scan_start(c), events).base);
}

/// What holds of every chunk: its lines are counted from 1 and it ends no
/// earlier than it starts; its content is trimmed; it is a code chunk,
/// which is not empty, or a text chunk, which reaches the minimum length
/// and has no language.
pub open spec fn chunk_in_order(c: ChunkInfoView) -> bool {
    &&& 1 <= c.start_line <= c.end_line
    &&& is_trimmed(c.content)
    &&& c.chunk_type == "code"@ || c.chunk_type == "text"@
    &&& c.chunk_type == "code"@ ==> c.content.len() > 0
    &&& c.chunk_type == "text"@ ==> c.content.len() >= MIN_CHUNK_SIZE && c.language is None
}

/// What holds of a scan at every moment.
pub open spec fn scan_in_order(s: ScanState) -> bool {
    &&& s.base.current_line >= 1
    &&& 1 <= s.base.chunk_start_line <= s.base.current_line
    &&& s.code.len() > 0 ==> s.in_code
    &&& s.in_code ==> 1 <= s.code_start <= s.base.current_line
    &&& forall|k: int| 0 <= k < s.base.chunks.len() ==> chunk_in_order(#[trigger] s.base.chunks[k])
}

/// A step keeps the scan in order.
pub proof fn lemma_step_in_order(s: ScanState, e: EventView)
    requires
        scan_in_order(s),
    ensures
        scan_in_order(step(s, e)),
{
    lemma_text_is_not_code();
    lemma_trim_is_trimmed(s.base.current);
    lemma_trim_is_trimmed(s.code);
    match e {
        EventView::Text(text) => lemma_trim_is_trimmed(s.base.current + text),
        _ => {},
    }
    let after = step(s, e);
    assert forall|k: int| 0 <= k < after.base.chunks.len() implies chunk_in_order(
        #[trigger] after.base.chunks[k],
    ) by {
        if k < s.base.chunks.len() {
            assert(after.base.chunks[k] == s.base.chunks[k]);
        }
    }
}

/// Every scan that starts in order stays in order.
pub proof fn lemma_run_in_order(s: ScanState, events: Seq<EventView>)
    requires
        scan_in_order(s),
    ensures
        scan_in_order(run(s, events)),
    decreases events.len(),
{
    if events.len() > 0 {
        lemma_run_in_order(s, events.drop_last());
        lemma_step_in_order(run(s, events.drop_last()), events.last());
    }
}

/// Every chunk of a document chunked from scratch is in order: its lines
/// are counted from 1 and it ends no earlier than it starts, its content
/// is trimmed, code chunks are never empty, and text chunks reach the
/// minimum length.
pub proof fn lemma_chunks_in_order(events: Seq<EventView>, k: int)
    requires
        0 <= k < chunk_model(initial_chunker(), events).chunks.len(),
    ensures
        chunk_in_order(chunk_model(initial_chunker(), events).chunks[k]),
{
    lemma_text_is_not_code();
    let start = scan_start(initial_chunker());
    lemma_run_in_order(start, events);
    let end = run(start, events);
    lemma_trim_is_trimmed(end.base.current);
    if k < end.base.chunks.len() {
        assert(chunk_model(initial_chunker(), events).chunks[k] == end.base.chunks[k]);
    }
}

} // verus!
