//! Batching of chunks on their way from extraction to the embedder: chunks
//! of many files are gathered into batches of a fixed size, in the order in
//! which they arrive.

use vstd::prelude::*;
use crate::models::Chunk;

verus! {

/// Number of chunks embedded in one call.
pub const BATCH_SIZE: usize = 128;

/// A chunk waiting to be embedded and stored.
pub struct ChunkJob {
    pub doc_id: i64,
    pub chunk_idx: usize,
    pub chunk: Chunk,
}

/// The mathematical content of a [`ChunkBatcher`].
pub struct BatcherView {
    /// Jobs gathered since the last batch.
    pub buffer: Seq<ChunkJob>,
    /// Number of jobs that make a batch.
    pub batch_size: usize,
}

/// The state of a batcher and the batches it has handed out.
pub struct BatchRun {
    pub batches: Seq<Seq<ChunkJob>>,
    pub buffer: Seq<ChunkJob>,
}

/// The effect of one more job: it joins the buffer, and the buffer leaves
/// as a batch once it holds `batch_size` jobs.
pub open spec fn push_job(run: BatchRun, batch_size: usize, job: ChunkJob) -> BatchRun {
    let buffer = run.buffer.push(job);
    if buffer.len() >= batch_size {
        BatchRun { batches: run.batches.push(buffer), buffer: Seq::empty() }
    } else {
        BatchRun { buffer, ..run }
    }
}

/// The batches handed out, and the buffer left, after `jobs` arrived in
/// order at an empty batcher.
pub open spec fn batched(batch_size: usize, jobs: Seq<ChunkJob>) -> BatchRun
    decreases jobs.len(),
{
    if jobs.len() == 0 {
        BatchRun { batches: Seq::empty(), buffer: Seq::empty() }
    } else {
        push_job(batched(batch_size, jobs.drop_last()), batch_size, jobs.last())
    }
}

/// The jobs of all batches, in order.
pub open spec fn flattened(batches: Seq<Seq<ChunkJob>>) -> Seq<ChunkJob>
    decreases batches.len(),
{
    if batches.len() == 0 {
        Seq::empty()
    } else {
        flattened(batches.drop_last()) + batches.last()
    }
}

/// Batching keeps every job and the order of arrival: the batches handed
/// out, followed by the buffer, are the jobs as they came. No batch is
/// empty, none is larger than the batch size (or than one job, where the
/// size is zero), and the buffer stays below the batch size.
pub proof fn lemma_batching_preserves_order(batch_size: usize, jobs: Seq<ChunkJob>)
    ensures
        flattened(batched(batch_size, jobs).batches) + batched(batch_size, jobs).buffer == jobs,
        forall|k: int|
            0 <= k < batched(batch_size, jobs).batches.len() ==> {
                let batch = #[trigger] batched(batch_size, jobs).batches[k];
                1 <= batch.len() && (batch.len() == batch_size || batch_size == 0)
            },
        batched(batch_size, jobs).buffer.len() < batch_size || batch_size == 0,
        batch_size == 0 ==> batched(batch_size, jobs).buffer.len() == 0,
    decreases jobs.len(),
{
    if jobs.len() == 0 {
        assert(flattened(batched(batch_size, jobs).batches) + batched(batch_size, jobs).buffer
            =~= jobs);
    } else {
        let front = jobs.drop_last();
        lemma_batching_preserves_order(batch_size, front);
        let before = batched(batch_size, front);
        let after = batched(batch_size, jobs);
        let buffer = before.buffer.push(jobs.last());
        if buffer.len() >= batch_size {
            assert(after.batches.drop_last() =~= before.batches);
            assert(flattened(after.batches) + after.buffer =~= (flattened(before.batches)
                + before.buffer).push(jobs.last()));
        } else {
            assert(flattened(after.batches) + after.buffer =~= (flattened(before.batches)
                + before.buffer).push(jobs.last()));
        }
        assert(front.push(jobs.last()) =~= jobs);
    }
}

/// Gathers chunk jobs into batches.
pub struct ChunkBatcher {
    buffer: Vec<ChunkJob>,
    batch_size: usize,
}

impl View for ChunkBatcher {
    type V = BatcherView;

    closed spec fn view(&self) -> BatcherView {
        BatcherView { buffer: self.buffer@, batch_size: self.batch_size }
    }
}

impl ChunkBatcher {
    /// An empty batcher that hands out batches of `batch_size` jobs.
    pub fn new(batch_size: usize) -> (r: Self)
        ensures
            r@.buffer == Seq::<ChunkJob>::empty(),
            r@.batch_size == batch_size,
    {
        ChunkBatcher { buffer: Vec::new(), batch_size }
    }

    /// Number of jobs waiting in the buffer.
    pub fn pending(&self) -> (n: usize)
        ensures
            n == self@.buffer.len(),
    {
        self.buffer.len()
    }

    /// Takes one more job. Once the buffer holds a full batch, the batch is
    /// handed out and the buffer starts empty again.
    pub fn push(&mut self, job: ChunkJob) -> (r: Option<Vec<ChunkJob>>)
        ensures
            final(self)@.batch_size == old(self)@.batch_size,
            match r {
                Some(batch) => {
                    &&& old(self)@.buffer.len() + 1 >= old(self)@.batch_size
                    &&& batch@ == old(self)@.buffer.push(job)
                    &&& final(self)@.buffer == Seq::<ChunkJob>::empty()
                },
                None => {
                    &&& old(self)@.buffer.len() + 1 < old(self)@.batch_size
                    &&& final(self)@.buffer == old(self)@.buffer.push(job)
                },
            },
    {
        self.buffer.push(job);
        if self.buffer.len() >= self.batch_size {
            let mut batch: Vec<ChunkJob> = Vec::new();
            batch.append(&mut self.buffer);
            assert(batch@ =~= old(self)@.buffer.push(job));
            Some(batch)
        } else {
            None
        }
    }

    /// Hands out what is left in the buffer when no more jobs will come.
    pub fn finish(&mut self) -> (r: Option<Vec<ChunkJob>>)
        ensures
            final(self)@.batch_size == old(self)@.batch_size,
            final(self)@.buffer == Seq::<ChunkJob>::empty(),
            match r {
                Some(batch) => batch@.len() > 0 && batch@ == old(self)@.buffer,
                None => old(self)@.buffer.len() == 0,
            },
    {
        if self.buffer.len() == 0 {
            assert(self.buffer@ =~= Seq::<ChunkJob>::empty());
            None
        } else {
            let mut batch: Vec<ChunkJob> = Vec::new();
            batch.append(&mut self.buffer);
            assert(batch@ =~= old(self)@.buffer);
            Some(batch)
        }
    }
}

} // verus!
