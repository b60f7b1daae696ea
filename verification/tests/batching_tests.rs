use deepseeker::batching::{ChunkBatcher, ChunkJob, BATCH_SIZE};
use deepseeker::models::Chunk;

fn job(n: usize) -> ChunkJob {
    ChunkJob {
        doc_id: (n / 10) as i64,
        chunk_idx: n,
        chunk: Chunk {
            id: 0,
            doc_id: (n / 10) as i64,
            content: format!("chunk {}", n),
            metadata: None,
            start_line: n + 1,
            end_line: n + 1,
            created_at: 0,
        },
    }
}

#[test]
fn batch_size_is_fixed() {
    assert_eq!(BATCH_SIZE, 128);
}

#[test]
fn batches_keep_the_order_of_arrival() {
    let mut batcher = ChunkBatcher::new(3);
    let mut seen: Vec<usize> = Vec::new();
    let mut sizes: Vec<usize> = Vec::new();
    for n in 0..10 {
        if let Some(batch) = batcher.push(job(n)) {
            sizes.push(batch.len());
            seen.extend(batch.iter().map(|j| j.chunk_idx));
        }
    }
    assert_eq!(sizes, vec![3, 3, 3]);
    assert_eq!(batcher.pending(), 1);
    let rest = batcher.finish().unwrap();
    assert_eq!(rest.len(), 1);
    seen.extend(rest.iter().map(|j| j.chunk_idx));
    assert_eq!(seen, (0..10).collect::<Vec<usize>>());
    assert_eq!(batcher.pending(), 0);
    assert!(batcher.finish().is_none());
}

#[test]
fn a_full_batch_leaves_nothing_to_finish() {
    let mut batcher = ChunkBatcher::new(2);
    assert!(batcher.push(job(0)).is_none());
    let batch = batcher.push(job(1)).unwrap();
    assert_eq!(batch.len(), 2);
    assert_eq!(batch[0].chunk.content, "chunk 0");
    assert_eq!(batch[1].chunk.content, "chunk 1");
    assert!(batcher.finish().is_none());
}

#[test]
fn the_default_size_gathers_a_hundred_and_twenty_eight() {
    let mut batcher = ChunkBatcher::new(BATCH_SIZE);
    for n in 0..127 {
        assert!(batcher.push(job(n)).is_none());
    }
    assert_eq!(batcher.push(job(127)).unwrap().len(), 128);
}
