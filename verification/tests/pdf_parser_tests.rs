use deepseeker::pdf_parser::{
    apply_ocr_result, chunk_pdf_text, chunk_pdf_text_at, count_pattern, estimate_page_count,
    extract_text_from_pdf, is_scanned_pdf, matches_at, split_on_blank_lines, PdfStatus,
};

#[test]
fn test_is_scanned_pdf() {
    // Empty text = scanned
    assert!(is_scanned_pdf("", 1));

    // Very little text = scanned
    assert!(is_scanned_pdf("ABC", 10));

    // Reasonable amount of text = not scanned
    let text = "a".repeat(1000);
    assert!(!is_scanned_pdf(&text, 2));
}

#[test]
fn test_estimate_page_count() {
    let pdf_like = "/Type /Page\n/Type /Page\n/Type /Pages\n".as_bytes();
    let count = estimate_page_count(pdf_like);
    assert_eq!(count, 2); // 2 pages, not counting /Pages object
}

#[test]
fn estimate_page_count_is_at_least_one() {
    assert_eq!(estimate_page_count(b""), 1);
    assert_eq!(estimate_page_count(b"no markers here"), 1);
    assert_eq!(estimate_page_count(b"/Type /Pages"), 1);
    assert_eq!(estimate_page_count(b"/Type /Page"), 1);
    assert_eq!(estimate_page_count(b"/Type /Page /Type /Page /Type /Page"), 3);
}

#[test]
fn estimate_page_count_survives_invalid_utf8() {
    let mut bytes: Vec<u8> = vec![0xff, 0xfe, 0xc3];
    bytes.extend_from_slice(b"/Type /Page");
    bytes.extend_from_slice(&[0x80, 0xe2, 0x82]);
    bytes.extend_from_slice(b"/Type /Page");
    bytes.extend_from_slice(&[0xff]);
    bytes.extend_from_slice(b"/Type /Pages/Type /Page");
    assert_eq!(estimate_page_count(&bytes), 3);
}

#[test]
fn scanned_threshold_is_fifty_characters_per_page() {
    assert!(is_scanned_pdf(&"a".repeat(49), 1));
    assert!(!is_scanned_pdf(&"a".repeat(50), 1));
    assert!(is_scanned_pdf(&"a".repeat(99), 2));
    assert!(!is_scanned_pdf(&"a".repeat(100), 2));
    // a page count of zero counts as one page
    assert!(!is_scanned_pdf(&"a".repeat(50), 0));
    // white space around the text does not count
    assert!(is_scanned_pdf(&format!("   {}\n\n", "a".repeat(49)), 1));
    assert!(is_scanned_pdf(" \n\t ", 1));
}

#[test]
fn extraction_outcomes() {
    let bytes = b"/Type /Page /Type /Page";
    match extract_text_from_pdf(bytes, Ok("x".repeat(100))) {
        PdfStatus::Success { text, page_count } => {
            assert_eq!(text.len(), 100);
            assert_eq!(page_count, 2);
        }
        other => panic!("unexpected {:?}", other),
    }
    match extract_text_from_pdf(bytes, Ok("x".repeat(99))) {
        PdfStatus::ScannedPdf { page_count } => assert_eq!(page_count, 2),
        other => panic!("unexpected {:?}", other),
    }
    match extract_text_from_pdf(bytes, Err("corrupt".to_string())) {
        PdfStatus::Error(message) => assert_eq!(message, "corrupt"),
        other => panic!("unexpected {:?}", other),
    }
}

#[test]
fn ocr_turns_a_scan_into_a_success() {
    let scanned = PdfStatus::ScannedPdf { page_count: 3 };
    match apply_ocr_result(scanned.clone(), Some("recognised".to_string())) {
        PdfStatus::Success { text, page_count } => {
            assert_eq!(text, "recognised");
            assert_eq!(page_count, 3);
        }
        other => panic!("unexpected {:?}", other),
    }
    assert!(matches!(
        apply_ocr_result(scanned, None),
        PdfStatus::ScannedPdf { page_count: 3 }
    ));
    assert!(matches!(
        apply_ocr_result(PdfStatus::Error("x".to_string()), Some("t".to_string())),
        PdfStatus::Error(_)
    ));
}

#[test]
fn paragraphs_become_chunks() {
    let first = "The first paragraph is long enough to be kept.";
    let third = "The third paragraph is long enough as well, surely.";
    let text = format!("  {}  \n\nshort\n\n{}\n\n   \n\n", first, third);
    let chunks = chunk_pdf_text_at(5, &text, 9, 77);
    assert_eq!(chunks.len(), 2);
    assert_eq!(chunks[0].content, first);
    assert_eq!(chunks[0].start_line, 1);
    assert_eq!(chunks[0].end_line, 1);
    // the short paragraph is dropped but still counted
    assert_eq!(chunks[1].content, third);
    assert_eq!(chunks[1].start_line, 3);
    assert_eq!(chunks[1].end_line, 3);
    for c in &chunks {
        assert_eq!(c.id, 0);
        assert_eq!(c.doc_id, 5);
        assert_eq!(c.created_at, 77);
        let metadata = c.metadata.clone().unwrap();
        assert_eq!(metadata.chunk_type, "pdf");
        assert_eq!(metadata.headers, Vec::<String>::new());
        assert_eq!(metadata.language, None);
    }
}

#[test]
fn blank_pieces_are_not_counted() {
    let a = "a".repeat(20);
    let b = "b".repeat(19);
    let c = "c".repeat(25);
    // four line feeds in a row leave an empty piece between the paragraphs
    let text = format!("{}\n\n\n\n{}\n\n{}", a, b, c);
    let chunks = chunk_pdf_text_at(1, &text, 1, 0);
    assert_eq!(chunks.len(), 2);
    assert_eq!(chunks[0].content, a);
    assert_eq!(chunks[0].start_line, 1);
    assert_eq!(chunks[1].content, c);
    assert_eq!(chunks[1].start_line, 3);
}

#[test]
fn a_text_without_a_long_paragraph_is_one_chunk() {
    let chunks = chunk_pdf_text_at(2, "tiny\n\nalso tiny", 4, 11);
    assert_eq!(chunks.len(), 1);
    assert_eq!(chunks[0].content, "tiny\n\nalso tiny");
    assert_eq!(chunks[0].start_line, 1);
    assert_eq!(chunks[0].end_line, 4);
    assert_eq!(chunks[0].created_at, 11);
    let chunks = chunk_pdf_text_at(2, "", 0, 11);
    assert_eq!(chunks.len(), 1);
    assert_eq!(chunks[0].content, "");
    assert_eq!(chunks[0].start_line, 1);
    assert_eq!(chunks[0].end_line, 1);
}

#[test]
fn splitting_follows_the_blank_lines() {
    let samples = ["", "a", "a\n\nb", "a\n\n", "\n\n", "\n\n\n", "a\n\n\n\nb", "a\nb\n\nc\n", "\n"];
    for s in samples {
        let pieces: Vec<String> = split_on_blank_lines(&s.chars().collect())
            .into_iter()
            .map(|p| p.into_iter().collect())
            .collect();
        let expected: Vec<String> = s.split("\n\n").map(|p| p.to_string()).collect();
        assert_eq!(pieces, expected, "{:?}", s);
    }
}

#[test]
fn chunk_pdf_text_stamps_the_present_time() {
    let text = format!("{}\n\n{}", "x".repeat(30), "y".repeat(30));
    let chunks = chunk_pdf_text(3, &text, 2);
    assert_eq!(chunks.len(), 2);
    assert!(chunks[0].created_at > 1_600_000_000);
    assert_eq!(chunks[0].created_at, chunks[1].created_at);
}

#[test]
fn patterns_are_counted_at_every_position() {
    assert_eq!(count_pattern(b"aaaa", &b"aa".to_vec()), 3);
    assert_eq!(count_pattern(b"abcabc", &b"abc".to_vec()), 2);
    assert_eq!(count_pattern(b"abc", &b"abcd".to_vec()), 0);
    assert!(matches_at(b"xabc", &b"abc".to_vec(), 1));
    assert!(!matches_at(b"xabc", &b"abc".to_vec(), 2));
    assert!(!matches_at(b"xabc", &b"abc".to_vec(), 9));
}
