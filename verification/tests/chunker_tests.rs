use deepseeker::chunker::{ChunkInfo, MarkdownChunker};

fn chunk(markdown: &str) -> Vec<ChunkInfo> {
    let mut chunker = MarkdownChunker::new();
    chunker.chunk(markdown).unwrap()
}

#[test]
fn test_no_code_block_splitting() {
    let long_code = "println!(\"line\");\n".repeat(100);
    let markdown = format!("# Title\n\n{}", format!("```rust\n{}\n```", long_code));

    let chunks = chunk(&markdown);

    let code_chunks: Vec<_> = chunks.iter().filter(|c| c.chunk_type == "code").collect();
    assert_eq!(code_chunks.len(), 1);
    assert!(code_chunks[0].content.len() > 1000);
}

#[test]
fn code_block_never_split_scenario() {
    let markdown = format!(
        "# Title\n\n```rust\n{}```",
        "println!(\"line\");\n".repeat(100)
    );
    let chunks = chunk(&markdown);
    assert_eq!(chunks.len(), 1);
    assert_eq!(chunks[0].chunk_type, "code");
    assert_eq!(chunks[0].language, Some("rust".to_string()));
    assert_eq!(chunks[0].content.matches("println!(\"line\");").count(), 100);
    assert_eq!(chunks[0].headers, vec!["Title".to_string()]);
    assert!(chunks[0].content.len() > 1000);
}

#[test]
fn test_realistic_readme() {
    let markdown = "# Sample Project\n\nA short description of the sample project that explains what the project is for and why anybody would want to use it in the first place.\n\n## Installation\n\nInstall the tool with the package manager of your choice, then run the setup step once.\n\n```bash\ncargo install sample\nsample init\n```\n\n## Usage\n\n| Command | Effect |\n|---|---|\n| `sample run` | runs |\n\n- [x] done\n- [ ] open\n\n~~old~~ text with a footnote[^1].\n\n[^1]: The footnote.\n\n```rust\nfn main() {\n    println!(\"hello\");\n}\n```\n";

    let mut chunker = MarkdownChunker::new();
    let result = chunker.chunk(markdown);

    // Should not panic on real README
    assert!(result.is_ok());
    let chunks = result.unwrap();
    assert!(chunks.len() > 0);

    // Should have some code chunks
    let code_count = chunks.iter().filter(|c| c.chunk_type == "code").count();
    assert!(code_count > 0);
}

#[test]
fn header_hierarchy_with_code_inside() {
    let filler = "Some sentence that is long enough to count as a chunk of its own when repeated. ".repeat(2);
    let markdown = format!(
        "# A\n\n## B\n\n### C\n\n```python\nprint('x')\n```\n\n## D\n\n{}\n",
        filler
    );
    let chunks = chunk(&markdown);
    let code: Vec<_> = chunks.iter().filter(|c| c.chunk_type == "code").collect();
    assert_eq!(code.len(), 1);
    assert_eq!(code[0].language, Some("python".to_string()));
    assert_eq!(code[0].headers, vec!["A".to_string(), "B".to_string(), "C".to_string()]);
    assert_eq!(code[0].content, "print('x')");
    let text: Vec<_> = chunks.iter().filter(|c| c.chunk_type == "text").collect();
    assert_eq!(text.len(), 1);
    assert_eq!(text[0].headers, vec!["A".to_string(), "D".to_string()]);
    assert_eq!(text[0].content, filler.trim());
    assert_eq!(text[0].language, None);
}

#[test]
fn deep_nesting_then_sibling_reset() {
    let filler = "Text under module B that is long enough to be emitted as a chunk, because it has more than a hundred characters.";
    let markdown = format!(
        "# P\n\n## A\n\n### X\n\n#### \u{3b1}\n\n```\ncode here\n```\n\n## B\n\n{}\n",
        filler
    );
    let chunks = chunk(&markdown);
    let code: Vec<_> = chunks.iter().filter(|c| c.chunk_type == "code").collect();
    assert_eq!(code.len(), 1);
    assert_eq!(
        code[0].headers,
        vec!["P".to_string(), "A".to_string(), "X".to_string(), "\u{3b1}".to_string()]
    );
    assert_eq!(code[0].headers.len(), 4);
    assert_eq!(code[0].language, None);
    let under_b: Vec<_> = chunks.iter().filter(|c| c.headers.contains(&"B".to_string())).collect();
    assert_eq!(under_b.len(), 1);
    assert_eq!(under_b[0].headers, vec!["P".to_string(), "B".to_string()]);
    assert!(!under_b[0].headers.contains(&"A".to_string()));
    assert!(!under_b[0].headers.contains(&"X".to_string()));
}

#[test]
fn skipped_heading_levels_leave_no_gap_entries() {
    let markdown = "# One\n\n### Three\n\n```\nx = 1\n```\n";
    let chunks = chunk(markdown);
    assert_eq!(chunks.len(), 1);
    assert_eq!(chunks[0].headers, vec!["One".to_string(), "Three".to_string()]);
}

#[test]
fn text_shorter_than_the_minimum_is_glue() {
    let ninety_nine = "a".repeat(99);
    assert_eq!(chunk(&ninety_nine).len(), 0);
    let hundred = "a".repeat(100);
    let chunks = chunk(&hundred);
    assert_eq!(chunks.len(), 1);
    assert_eq!(chunks[0].chunk_type, "text");
    assert_eq!(chunks[0].content, hundred);
    assert_eq!(chunks[0].headers, Vec::<String>::new());
    assert_eq!(chunks[0].start_line, 1);
    assert_eq!(chunks[0].end_line, 1);
}

#[test]
fn length_is_counted_in_characters() {
    // 60 two-byte characters: 120 bytes, but fewer than 100 characters
    let short = "\u{e9}".repeat(60);
    assert_eq!(chunk(&short).len(), 0);
    let long = "\u{e9}".repeat(100);
    assert_eq!(chunk(&long).len(), 1);
}

#[test]
fn code_chunks_are_kept_whatever_their_size() {
    let chunks = chunk("```js\nx\n```\n");
    assert_eq!(chunks.len(), 1);
    assert_eq!(chunks[0].content, "x");
    assert_eq!(chunks[0].chunk_type, "code");
    assert_eq!(chunks[0].language, Some("js".to_string()));
    // a fence without info has no language
    let chunks = chunk("```\nx\n```\n");
    assert_eq!(chunks[0].language, None);
    // a blank body gives no chunk
    assert_eq!(chunk("```js\n   \n\n```\n").len(), 0);
}

#[test]
fn long_text_is_flushed_past_the_maximum() {
    // one paragraph of 30 lines of 50 characters: soft breaks between them
    let line = "b".repeat(49);
    let paragraph = vec![line.clone(); 30].join("\n");
    let chunks = chunk(&paragraph);
    assert!(chunks.len() >= 2);
    for c in &chunks {
        assert_eq!(c.chunk_type, "text");
        assert!(c.content.chars().count() >= 100);
        assert!(c.content.chars().count() <= 1000 + 49);
        assert!(1 <= c.start_line && c.start_line <= c.end_line);
    }
    // nothing is lost but white space at the cuts
    let joined: String = chunks.iter().map(|c| c.content.replace('\n', "")).collect();
    assert_eq!(joined, "b".repeat(49 * 30));
}

#[test]
fn line_spans_follow_the_breaks() {
    let first = "c".repeat(60);
    let second = "d".repeat(60);
    let markdown = format!("{}\n{}\n\n```\none\ntwo\n```\n", first, second);
    let chunks = chunk(&markdown);
    assert_eq!(chunks.len(), 2);
    assert_eq!(chunks[0].chunk_type, "text");
    assert_eq!(chunks[0].content, format!("{}\n{}", first, second));
    assert_eq!(chunks[0].start_line, 1);
    assert_eq!(chunks[0].end_line, 2);
    assert_eq!(chunks[1].chunk_type, "code");
    assert_eq!(chunks[1].content, "one\ntwo");
    assert_eq!(chunks[1].start_line, 2);
    assert_eq!(chunks[1].end_line, 4);
}

#[test]
fn inline_code_keeps_its_backticks() {
    let markdown = format!("{} `let x = 1;` {}", "e".repeat(60), "f".repeat(60));
    let chunks = chunk(&markdown);
    assert_eq!(chunks.len(), 1);
    assert!(chunks[0].content.contains("`let x = 1;`"));
}

#[test]
fn a_chunker_goes_on_where_it_stopped() {
    let mut chunker = MarkdownChunker::new();
    let first = chunker.chunk("# Kept\n\n```\na\n```\n").unwrap();
    assert_eq!(first.len(), 1);
    let second = chunker.chunk("```\nb\n```\n").unwrap();
    assert_eq!(second.len(), 2);
    assert_eq!(second[0].content, "a");
    assert_eq!(second[1].content, "b");
    assert_eq!(second[1].headers, vec!["Kept".to_string()]);
    assert!(second[1].start_line >= first[0].end_line);
}

#[test]
fn empty_input_gives_no_chunk() {
    assert_eq!(chunk("").len(), 0);
    assert_eq!(chunk("\n\n   \n").len(), 0);
}

#[test]
fn a_long_paragraph_in_one_piece_is_one_chunk() {
    let long_paragraph = "Lorem ipsum dolor sit amet. ".repeat(100);
    let markdown = format!(
        "\n# Long Article\n\n## Introduction\n\n{}\n\n## Conclusion\n\nShort ending.\n",
        long_paragraph
    );
    let chunks = chunk(&markdown);
    assert_eq!(chunks.len(), 1);
    assert_eq!(chunks[0].content, long_paragraph.trim());
    assert_eq!(
        chunks[0].headers,
        vec!["Long Article".to_string(), "Introduction".to_string()]
    );
}

#[test]
fn short_text_between_blocks_is_dropped_with_its_inline_code() {
    let markdown = "# Tutorial\n\nSome inline `code snippet` here.\n\n```bash\nnpm start\n```\n";
    let chunks = chunk(markdown);
    assert_eq!(chunks.len(), 1);
    assert_eq!(chunks[0].chunk_type, "code");
    assert_eq!(chunks[0].language, Some("bash".to_string()));
}

#[test]
fn code_chunks_are_the_code_blocks_in_order() {
    let bodies = ["fn a() {}\n", "\n\n", "let b = 2;\nlet c = 3;\n", "    indented = True\n"];
    let markdown = format!(
        "# T\n\n```rust\n{}```\n\ntext\n\n```\n{}```\n\n## U\n\n~~~\n{}~~~\n\nmore text\n\n```python\n{}```\n",
        bodies[0], bodies[1], bodies[2], bodies[3]
    );
    let chunks = chunk(&markdown);
    let code: Vec<String> =
        chunks.iter().filter(|c| c.chunk_type == "code").map(|c| c.content.clone()).collect();
    let expected: Vec<String> = bodies
        .iter()
        .map(|b| b.trim().to_string())
        .filter(|b| !b.is_empty())
        .collect();
    assert_eq!(code, expected);
    assert_eq!(code.concat(), expected.concat());
}

#[test]
fn text_right_after_a_code_block_starts_where_the_block_ended() {
    let markdown = format!("```\na\n```\n\n{}", "x".repeat(100));
    let chunks = chunk(&markdown);
    assert_eq!(chunks.len(), 2);
    assert_eq!((chunks[0].start_line, chunks[0].end_line), (1, 2));
    assert_eq!(chunks[1].chunk_type, "text");
    assert_eq!((chunks[1].start_line, chunks[1].end_line), (2, 2));
}

#[test]
fn every_chunk_ends_no_earlier_than_it_starts() {
    let documents = [
        format!("```\na\n```\n\n{}", "x".repeat(100)),
        format!("# T\n\n{}\n\n```\nb\nc\n```\n{}\n\n## U\n\n{}", "p".repeat(120), "q".repeat(120), "r".repeat(120)),
        format!("{}\n{}\n\n    indented\n\n{}", "s".repeat(700), "t".repeat(700), "u".repeat(100)),
    ];
    for markdown in &documents {
        let chunks = chunk(markdown);
        assert!(!chunks.is_empty());
        for c in &chunks {
            assert!(1 <= c.start_line && c.start_line <= c.end_line, "{:?}", c);
        }
    }
}
