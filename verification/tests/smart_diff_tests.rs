use deepseeker::hashing::{content_hash, text_hash};
use deepseeker::search::f32_vec_to_bytes;
use deepseeker::smart_diff::{
    assign_embeddings, batch_embeddings, smart_diff, EmbeddingIndex, StoredChunk,
};

fn stored(content: &str, embedding: Option<Vec<u8>>) -> StoredChunk {
    StoredChunk { content: content.to_string(), embedding }
}

fn strings(items: &[&str]) -> Vec<String> {
    items.iter().map(|s| s.to_string()).collect()
}

#[test]
fn hashes_are_sha256_in_lower_case_hex() {
    assert_eq!(
        content_hash(b"abc"),
        "ba7816bf8f01cfea414140de5dae2223b00361a396177a9cb410ff61f20015ad"
    );
    assert_eq!(
        content_hash(b""),
        "e3b0c44298fc1c149afbf4c8996fb92427ae41e4649b934ca495991b7852b855"
    );
    assert_eq!(text_hash("abc"), content_hash(b"abc"));
    assert_eq!(text_hash("h\u{e9}"), content_hash("h\u{e9}".as_bytes()));
    assert_ne!(text_hash("abc"), text_hash("abd"));
}

#[test]
fn smart_diff_scenario() {
    // a file with five chunks, all embedded
    let old: Vec<StoredChunk> = (0..5)
        .map(|i| stored(&format!("chunk number {}", i), Some(vec![i as u8; 8])))
        .collect();
    let index = EmbeddingIndex::from_stored(&old);
    // the edit changes exactly two of them
    let new = strings(&[
        "chunk number 0",
        "chunk number 1 was edited",
        "chunk number 2",
        "a wholly new chunk",
        "chunk number 4",
    ]);
    let diff = smart_diff(&index, &new);
    assert_eq!(diff.to_embed, strings(&["chunk number 1 was edited", "a wholly new chunk"]));
    assert_eq!(diff.content_hashes.len(), 5);
    for (hash, content) in diff.content_hashes.iter().zip(new.iter()) {
        assert_eq!(hash, &text_hash(content));
    }
    let fresh = Some(vec![vec![1.5f32.to_bits(), 2.5f32.to_bits()], vec![7u32, 8u32]]);
    let blobs = assign_embeddings(&index, &diff.content_hashes, &fresh);
    assert_eq!(blobs.len(), 5);
    assert_eq!(blobs[0], Some(vec![0u8; 8]));
    assert_eq!(blobs[2], Some(vec![2u8; 8]));
    assert_eq!(blobs[4], Some(vec![4u8; 8]));
    assert_eq!(blobs[1], Some(f32_vec_to_bytes(&[1.5f32.to_bits(), 2.5f32.to_bits()])));
    assert_eq!(blobs[3], Some(vec![7u8, 0, 0, 0, 8, 0, 0, 0]));
}

#[test]
fn inputs_to_the_embedder_are_the_chunks_less_the_matches() {
    let old = vec![
        stored("same", Some(vec![1])),
        stored("no embedding", None),
        stored("other", Some(vec![2])),
    ];
    let index = EmbeddingIndex::from_stored(&old);
    let new = strings(&["same", "no embedding", "same", "fresh", "other"]);
    let diff = smart_diff(&index, &new);
    // three matches ("same" twice, "other"); a chunk stored without an
    // embedding does not match
    assert_eq!(diff.to_embed.len(), new.len() - 3);
    assert_eq!(diff.to_embed, strings(&["no embedding", "fresh"]));
}

#[test]
fn a_new_file_embeds_everything() {
    let index = EmbeddingIndex::new();
    let new = strings(&["a", "b"]);
    let diff = smart_diff(&index, &new);
    assert_eq!(diff.to_embed, new);
    assert!(!index.contains(&text_hash("a")));
    assert_eq!(index.get(&text_hash("a")), None);
}

#[test]
fn without_an_embedder_only_reused_embeddings_remain() {
    let old = vec![stored("kept", Some(vec![9, 9]))];
    let index = EmbeddingIndex::from_stored(&old);
    let diff = smart_diff(&index, &strings(&["new", "kept"]));
    let blobs = assign_embeddings(&index, &diff.content_hashes, &None);
    assert_eq!(blobs, vec![None, Some(vec![9u8, 9])]);
}

#[test]
fn too_few_fresh_embeddings_leave_the_rest_without() {
    let index = EmbeddingIndex::new();
    let diff = smart_diff(&index, &strings(&["a", "b", "c"]));
    let fresh = Some(vec![vec![1u32], vec![2u32]]);
    let blobs = assign_embeddings(&index, &diff.content_hashes, &fresh);
    assert_eq!(
        blobs,
        vec![Some(vec![1u8, 0, 0, 0]), Some(vec![2u8, 0, 0, 0]), None]
    );
}

#[test]
fn of_two_stored_chunks_with_one_content_the_later_counts() {
    let old = vec![stored("twice", Some(vec![1])), stored("twice", Some(vec![2]))];
    let index = EmbeddingIndex::from_stored(&old);
    assert!(index.contains(&text_hash("twice")));
    assert_eq!(index.get(&text_hash("twice")), Some(vec![2u8]));
}

#[test]
fn a_batch_takes_its_embeddings_by_position() {
    let fresh = Some(vec![vec![1u32], vec![0x0102_0304u32]]);
    assert_eq!(
        batch_embeddings(3, &fresh),
        vec![Some(vec![1u8, 0, 0, 0]), Some(vec![4u8, 3, 2, 1]), None]
    );
    assert_eq!(batch_embeddings(2, &None), vec![None, None]);
    assert_eq!(batch_embeddings(0, &fresh), Vec::<Option<Vec<u8>>>::new());
}

#[test]
fn the_embedder_is_called_only_when_there_is_work_and_a_backend() {
    let index = EmbeddingIndex::from_stored(&vec![stored("kept", Some(vec![1]))]);
    let nothing_new = smart_diff(&index, &strings(&["kept"]));
    let something_new = smart_diff(&index, &strings(&["kept", "new"]));
    assert!(!deepseeker::smart_diff::needs_embed_call(true, &nothing_new));
    assert!(!deepseeker::smart_diff::needs_embed_call(false, &something_new));
    assert!(deepseeker::smart_diff::needs_embed_call(true, &something_new));
}
