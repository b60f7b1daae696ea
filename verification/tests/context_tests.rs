use deepseeker::context::{find_line, select_context, DEFAULT_CONTEXT_SIZE};

#[test]
fn the_window_is_centred_on_the_hit() {
    let lines: Vec<usize> = vec![1, 5, 9, 14, 20, 31, 40];
    assert_eq!(select_context(&lines, 14, Some(2)), (1, 6));
    assert_eq!(select_context(&lines, 14, Some(1)), (2, 5));
    assert_eq!(select_context(&lines, 14, Some(0)), (3, 4));
}

#[test]
fn the_window_is_clamped_to_the_document() {
    let lines: Vec<usize> = vec![1, 5, 9, 14, 20, 31, 40];
    assert_eq!(select_context(&lines, 1, Some(2)), (0, 3));
    assert_eq!(select_context(&lines, 40, Some(2)), (4, 7));
    assert_eq!(select_context(&lines, 9, Some(100)), (0, 7));
    assert_eq!(select_context(&lines, 9, Some(usize::MAX)), (0, 7));
}

#[test]
fn without_a_match_the_whole_document_is_shown() {
    let lines: Vec<usize> = vec![1, 5, 9];
    assert_eq!(select_context(&lines, 6, Some(1)), (0, 3));
    assert_eq!(select_context(&Vec::new(), 1, Some(1)), (0, 0));
}

#[test]
fn five_neighbours_by_default() {
    assert_eq!(DEFAULT_CONTEXT_SIZE, 5);
    let lines: Vec<usize> = (1..=20).collect();
    assert_eq!(select_context(&lines, 10, None), (4, 15));
}

#[test]
fn the_first_chunk_on_a_line_is_the_hit() {
    let lines: Vec<usize> = vec![3, 7, 7, 7, 9];
    assert_eq!(find_line(&lines, 7), Some(1));
    assert_eq!(find_line(&lines, 8), None);
    assert_eq!(select_context(&lines, 7, Some(1)), (0, 3));
}
