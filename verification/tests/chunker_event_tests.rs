use deepseeker::chunker::{
    chunk_markdown, chunks_from_infos, count_line_breaks, count_newlines_in,
    events_are_well_formed, ChunkError, ChunkInfo, MarkdownChunker, MarkdownEvent, MAX_CHUNK_SIZE,
    MIN_CHUNK_SIZE,
};

fn text(s: &str) -> MarkdownEvent {
    MarkdownEvent::Text(s.to_string())
}

#[test]
fn chunk_sizes() {
    assert_eq!(MIN_CHUNK_SIZE, 100);
    assert_eq!(MAX_CHUNK_SIZE, 1000);
}

#[test]
fn events_drive_the_chunker() {
    let events = vec![
        MarkdownEvent::HeadingStart(1),
        text("Guide"),
        MarkdownEvent::HeadingEnd(1),
        MarkdownEvent::HeadingStart(2),
        text(" Setup "),
        MarkdownEvent::HeadingEnd(2),
        MarkdownEvent::CodeBlockStart(Some("sh".to_string())),
        text("make\n"),
        text("make install\n"),
        MarkdownEvent::CodeBlockEnd,
        MarkdownEvent::Other,
        MarkdownEvent::HeadingStart(2),
        text("Use"),
        MarkdownEvent::HeadingEnd(2),
        text(&"g".repeat(100)),
        MarkdownEvent::LineBreak,
    ];
    let mut chunker = MarkdownChunker::new();
    assert_eq!(chunker.check_events(&events), None);
    let chunks = chunker.chunk_events(&events);
    assert_eq!(chunks.len(), 2);
    assert_eq!(chunks[0].chunk_type, "code");
    assert_eq!(chunks[0].content, "make\nmake install");
    assert_eq!(chunks[0].language, Some("sh".to_string()));
    assert_eq!(chunks[0].headers, vec!["Guide".to_string(), "Setup".to_string()]);
    assert_eq!(chunks[0].start_line, 1);
    assert_eq!(chunks[0].end_line, 3);
    assert_eq!(chunks[1].chunk_type, "text");
    assert_eq!(chunks[1].content, "g".repeat(100));
    assert_eq!(chunks[1].headers, vec!["Guide".to_string(), "Use".to_string()]);
    assert_eq!(chunks[1].language, None);
    assert_eq!(chunks[1].start_line, 3);
    assert_eq!(chunks[1].end_line, 4);
}

#[test]
fn an_empty_fence_info_is_no_language() {
    let events = vec![
        MarkdownEvent::CodeBlockStart(Some(String::new())),
        text("x"),
        MarkdownEvent::CodeBlockEnd,
        MarkdownEvent::CodeBlockStart(None),
        text("y"),
        MarkdownEvent::LineBreak,
        text("z"),
        MarkdownEvent::CodeBlockEnd,
    ];
    let mut chunker = MarkdownChunker::new();
    let chunks = chunker.chunk_events(&events);
    assert_eq!(chunks.len(), 2);
    assert_eq!(chunks[0].language, None);
    assert_eq!(chunks[1].language, None);
    assert_eq!(chunks[1].content, "y\nz");
}

#[test]
fn the_buffer_is_flushed_once_it_passes_the_maximum() {
    let events = vec![text(&"h".repeat(1000)), text("i"), text(&"j".repeat(99))];
    let mut chunker = MarkdownChunker::new();
    let chunks = chunker.chunk_events(&events);
    assert_eq!(chunks.len(), 1);
    assert_eq!(chunks[0].content, format!("{}i", "h".repeat(1000)));
}

#[test]
fn a_heading_of_level_zero_is_refused() {
    let events = vec![MarkdownEvent::HeadingStart(0)];
    assert!(!events_are_well_formed(&events));
    let chunker = MarkdownChunker::new();
    assert_eq!(chunker.check_events(&events), Some(ChunkError::MalformedEvents));
    let events = vec![text("fine"), MarkdownEvent::HeadingEnd(0)];
    assert_eq!(chunker.check_events(&events), Some(ChunkError::MalformedEvents));
    assert!(events_are_well_formed(&vec![MarkdownEvent::HeadingStart(6), MarkdownEvent::HeadingEnd(1)]));
}

#[test]
fn line_breaks_are_counted_up_to_a_limit() {
    let events = vec![text("a\nb\n"), MarkdownEvent::LineBreak, text("c"), MarkdownEvent::Other];
    assert_eq!(count_line_breaks(&events, 3), Some(3));
    assert_eq!(count_line_breaks(&events, 100), Some(3));
    assert_eq!(count_line_breaks(&events, 2), None);
    assert_eq!(count_line_breaks(&Vec::new(), 0), Some(0));
    assert_eq!(count_newlines_in(&"x\n\ny\n".chars().collect()), 3);
}

#[test]
fn flush_chunk_emits_the_buffer_under_the_given_type() {
    let mut chunker = MarkdownChunker::new();
    chunker.flush_chunk("text");
    let chunks = chunker.chunk_events(&Vec::new());
    assert_eq!(chunks.len(), 0);
}

#[test]
fn stored_chunks_take_over_what_the_chunker_found() {
    let infos = vec![ChunkInfo {
        content: "body".to_string(),
        headers: vec!["T".to_string()],
        chunk_type: "code".to_string(),
        language: Some("c".to_string()),
        start_line: 3,
        end_line: 7,
    }];
    let chunks = chunks_from_infos(42, &infos, 1_700_000_000);
    assert_eq!(chunks.len(), 1);
    assert_eq!(chunks[0].id, 0);
    assert_eq!(chunks[0].doc_id, 42);
    assert_eq!(chunks[0].content, "body");
    assert_eq!(chunks[0].start_line, 3);
    assert_eq!(chunks[0].end_line, 7);
    assert_eq!(chunks[0].created_at, 1_700_000_000);
    let metadata = chunks[0].metadata.clone().unwrap();
    assert_eq!(metadata.headers, vec!["T".to_string()]);
    assert_eq!(metadata.chunk_type, "code");
    assert_eq!(metadata.language, Some("c".to_string()));
}

#[test]
fn chunk_markdown_stamps_every_chunk_alike() {
    let markdown = "# T\n\n```\na\n```\n\n```\nb\n```\n";
    let chunks = chunk_markdown(9, markdown).unwrap();
    assert_eq!(chunks.len(), 2);
    assert!(chunks[0].created_at > 1_600_000_000);
    assert_eq!(chunks[0].created_at, chunks[1].created_at);
    for c in &chunks {
        assert_eq!(c.id, 0);
        assert_eq!(c.doc_id, 9);
        assert_eq!(c.metadata.clone().unwrap().headers, vec!["T".to_string()]);
        assert_eq!(c.metadata.clone().unwrap().chunk_type, "code");
    }
    assert_eq!(chunks[0].content, "a");
    assert_eq!(chunks[1].content, "b");
}
