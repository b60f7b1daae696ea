//! Smart diff: when a file changes, a chunk whose content is unchanged keeps
//! the embedding it had, and only the other chunks are embedded anew.

use vstd::prelude::*;
use crate::hashing::{text_hash, text_hash_of};
use crate::models::strings_view;
use crate::search::{f32_vec_to_bytes, serialized};

verus! {

/// A chunk of the stored version of a file: its content and its embedding,
/// if it has one.
pub struct StoredChunk {
    pub content: String,
    pub embedding: Option<Vec<u8>>,
}

/// A stored embedding under the hash of the content it belongs to.
pub struct EmbeddingEntry {
    pub content_hash: String,
    pub embedding: Vec<u8>,
}

/// The embeddings of `entries` by content hash; of two entries with one
/// hash the later counts.
pub open spec fn index_map(entries: Seq<EmbeddingEntry>) -> Map<Seq<char>, Seq<u8>>
    decreases entries.len(),
{
    if entries.len() == 0 {
        Map::empty()
    } else {
        index_map(entries.drop_last()).insert(
            entries.last().content_hash@,
            entries.last().embedding@,
        )
    }
}

/// The embeddings of the stored chunks by the hash of their content; chunks
/// without an embedding do not appear.
pub open spec fn old_embeddings(old: Seq<StoredChunk>) -> Map<Seq<char>, Seq<u8>>
    decreases old.len(),
{
    if old.len() == 0 {
        Map::empty()
    } else {
        let before = old_embeddings(old.drop_last());
        match old.last().embedding {
            Some(bytes) => before.insert(text_hash_of(old.last().content@), bytes@),
            None => before,
        }
    }
}

/// Every stored chunk that has an embedding is found again by its content.
pub proof fn lemma_stored_content_is_indexed(old: Seq<StoredChunk>, k: int)
    requires
        0 <= k < old.len(),
        old[k].embedding is Some,
    ensures
        old_embeddings(old).contains_key(text_hash_of(old[k].content@)),
    decreases old.len(),
{
    if k < old.len() - 1 {
        lemma_stored_content_is_indexed(old.drop_last(), k);
    }
}

/// The entry that decides a lookup: the last one under the hash.
pub proof fn lemma_index_lookup(entries: Seq<EmbeddingEntry>, hash: Seq<char>, k: int)
    requires
        -1 <= k < entries.len(),
        k >= 0 ==> entries[k].content_hash@ == hash,
        forall|j: int| k < j < entries.len() ==> (#[trigger] entries[j]).content_hash@ != hash,
    ensures
        k >= 0 ==> index_map(entries).contains_key(hash) && index_map(entries)[hash]
            == entries[k].embedding@,
        k < 0 ==> !index_map(entries).contains_key(hash),
    decreases entries.len(),
{
    if entries.len() > 0 && k < entries.len() - 1 {
        let front = entries.drop_last();
        assert(entries.last() == entries[entries.len() - 1]);
        assert forall|j: int| k < j < front.len() implies (#[trigger] front[j]).content_hash@
            != hash by {
            assert(front[j] == entries[j]);
        }
        lemma_index_lookup(front, hash, k);
    }
}

/// Copies a byte string.
pub fn clone_bytes(v: &Vec<u8>) -> (r: Vec<u8>)
    ensures
        r@ == v@,
{
    let mut r: Vec<u8> = Vec::new();
    let mut i: usize = 0;
    while i < v.len()
        invariant
            i <= v@.len(),
            r@ == v@.take(i as int),
        decreases v.len() - i,
    {
        r.push(v[i]);
        assert(r@ =~= v@.take(i as int + 1));
        i += 1;
    }
    assert(v@.take(v@.len() as int) =~= v@);
    r
}

/// The stored embeddings of one document, found by content hash.
pub struct EmbeddingIndex {
    entries: Vec<EmbeddingEntry>,
}

impl View for EmbeddingIndex {
    type V = Map<Seq<char>, Seq<u8>>;

    closed spec fn view(&self) -> Map<Seq<char>, Seq<u8>> {
        index_map(self.entries@)
    }
}

impl EmbeddingIndex {
    /// An index without embeddings, as for a file that is new.
    pub fn new() -> (r: Self)
        ensures
            r@ == Map::<Seq<char>, Seq<u8>>::empty(),
    {
        EmbeddingIndex { entries: Vec::new() }
    }

    /// The index of the embeddings of a stored document: each chunk that has
    /// one is entered under the hash of its content.
    pub fn from_stored(old: &Vec<StoredChunk>) -> (r: Self)
        ensures
            r@ == old_embeddings(old@),
    {
        let mut entries: Vec<EmbeddingEntry> = Vec::new();
        let mut i: usize = 0;
        assert(old@.take(0) =~= Seq::<StoredChunk>::empty());
        while i < old.len()
            invariant
                i <= old@.len(),
                index_map(entries@) == old_embeddings(old@.take(i as int)),
            decreases old.len() - i,
        {
            proof {
                assert(old@.take(i as int + 1).drop_last() =~= old@.take(i as int));
                assert(old@.take(i as int + 1).last() == old@[i as int]);
            }
            match &old[i].embedding {
                Some(bytes) => {
                    let entry = EmbeddingEntry {
                        content_hash: text_hash(old[i].content.as_str()),
                        embedding: clone_bytes(bytes),
                    };
                    let ghost before = entries@;
                    entries.push(entry);
                    assert(entries@.drop_last() =~= before);
                },
                None => {},
            }
            i += 1;
        }
        assert(old@.take(old@.len() as int) =~= old@);
        EmbeddingIndex { entries }
    }

    /// The stored embedding for a content hash, if there is one.
    pub fn get(&self, content_hash: &String) -> (r: Option<Vec<u8>>)
        ensures
            match r {
                Some(bytes) => self@.contains_key(content_hash@) && bytes@ == self@[content_hash@],
                None => !self@.contains_key(content_hash@),
            },
    {
        let mut i: usize = self.entries.len();
        while i > 0
            invariant
                i <= self.entries@.len(),
                forall|j: int|
                    i <= j < self.entries@.len() ==> (#[trigger] self.entries@[j]).content_hash@
                        != content_hash@,
            decreases i,
        {
            if self.entries[i - 1].content_hash == *content_hash {
                proof {
                    lemma_index_lookup(self.entries@, content_hash@, i - 1);
                }
                return Some(clone_bytes(&self.entries[i - 1].embedding));
            }
            i -= 1;
        }
        proof {
            lemma_index_lookup(self.entries@, content_hash@, -1);
        }
        None
    }

    /// Tells whether an embedding is stored for a content hash.
    pub fn contains(&self, content_hash: &String) -> (r: bool)
        ensures
            r == self@.contains_key(content_hash@),
    {
        self.get(content_hash).is_some()
    }
}

/// Number of the first `upto` hashes for which no embedding is stored.
pub open spec fn missing_before(
    index: Map<Seq<char>, Seq<u8>>,
    hashes: Seq<Seq<char>>,
    upto: int,
) -> nat
    decreases upto,
{
    if upto <= 0 {
        0
    } else {
        missing_before(index, hashes, upto - 1) + if index.contains_key(hashes[upto - 1]) {
            0nat
        } else {
            1nat
        }
    }
}

/// Number of the first `upto` hashes for which an embedding is stored.
pub open spec fn matched_before(
    index: Map<Seq<char>, Seq<u8>>,
    hashes: Seq<Seq<char>>,
    upto: int,
) -> nat
    decreases upto,
{
    if upto <= 0 {
        0
    } else {
        matched_before(index, hashes, upto - 1) + if index.contains_key(hashes[upto - 1]) {
            1nat
        } else {
            0nat
        }
    }
}

/// Every chunk either keeps its embedding or needs a new one.
pub proof fn lemma_matched_or_missing(
    index: Map<Seq<char>, Seq<u8>>,
    hashes: Seq<Seq<char>>,
    upto: int,
)
    requires
        0 <= upto,
    ensures
        missing_before(index, hashes, upto) + matched_before(index, hashes, upto) == upto,
    decreases upto,
{
    if upto > 0 {
        lemma_matched_or_missing(index, hashes, upto - 1);
    }
}

/// The hashes of the given contents.
pub open spec fn hashes_of(contents: Seq<Seq<char>>) -> Seq<Seq<char>> {
    Seq::new(contents.len(), |i: int| text_hash_of(contents[i]))
}

/// The contents, among the first `upto`, for which no embedding is stored,
/// in order.
pub open spec fn texts_to_embed(
    index: Map<Seq<char>, Seq<u8>>,
    contents: Seq<Seq<char>>,
    upto: int,
) -> Seq<Seq<char>>
    decreases upto,
{
    if upto <= 0 {
        Seq::empty()
    } else if index.contains_key(text_hash_of(contents[upto - 1])) {
        texts_to_embed(index, contents, upto - 1)
    } else {
        texts_to_embed(index, contents, upto - 1).push(contents[upto - 1])
    }
}

/// There is one text to embed for each chunk without a stored embedding.
pub proof fn lemma_texts_to_embed_len(
    index: Map<Seq<char>, Seq<u8>>,
    contents: Seq<Seq<char>>,
    upto: int,
)
    requires
        0 <= upto <= contents.len(),
    ensures
        texts_to_embed(index, contents, upto).len() == missing_before(
            index,
            hashes_of(contents),
            upto,
        ),
    decreases upto,
{
    if upto > 0 {
        lemma_texts_to_embed_len(index, contents, upto - 1);
    }
}

/// Whether some stored chunk that has an embedding has this content.
pub open spec fn stored_with_embedding(old: Seq<StoredChunk>, content: Seq<char>) -> bool {
    exists|k: int|
        0 <= k < old.len() && (#[trigger] old[k]).embedding is Some && old[k].content@ == content
}

/// The contents, among the first `upto`, that no stored chunk with an
/// embedding has, in order.
pub open spec fn changed_contents(
    old: Seq<StoredChunk>,
    contents: Seq<Seq<char>>,
    upto: int,
) -> Seq<Seq<char>>
    decreases upto,
{
    if upto <= 0 {
        Seq::empty()
    } else if stored_with_embedding(old, contents[upto - 1]) {
        changed_contents(old, contents, upto - 1)
    } else {
        changed_contents(old, contents, upto - 1).push(contents[upto - 1])
    }
}

/// Hashes tell the texts at hand apart: a stored content and a new content
/// with one hash are one content.
pub open spec fn hashes_tell_apart(old: Seq<StoredChunk>, contents: Seq<Seq<char>>) -> bool {
    forall|k: int, j: int|
        0 <= k < old.len() && 0 <= j < contents.len() && text_hash_of((#[trigger] old[k]).content@)
            == text_hash_of(#[trigger] contents[j]) ==> old[k].content@ == contents[j]
}

/// Every hash in the index is that of a stored chunk with an embedding.
pub proof fn lemma_indexed_is_stored(old: Seq<StoredChunk>, hash: Seq<char>) -> (k: int)
    requires
        old_embeddings(old).contains_key(hash),
    ensures
        0 <= k < old.len(),
        old[k].embedding is Some,
        text_hash_of(old[k].content@) == hash,
    decreases old.len(),
{
    let last = old.len() - 1;
    if old[last].embedding is Some && text_hash_of(old[last].content@) == hash {
        last
    } else {
        lemma_indexed_is_stored(old.drop_last(), hash)
    }
}

/// Smart diff by content: as long as hashes tell the texts at hand apart,
/// the texts to embed are exactly the new contents that no stored chunk
/// with an embedding has, in the order of the document. So an edit that
/// changes two chunks of five sends those two contents to the embedder,
/// and nothing else.
pub proof fn lemma_smart_diff_by_content(
    old: Seq<StoredChunk>,
    contents: Seq<Seq<char>>,
    upto: int,
)
    requires
        0 <= upto <= contents.len(),
        hashes_tell_apart(old, contents),
    ensures
        texts_to_embed(old_embeddings(old), contents, upto) == changed_contents(
            old,
            contents,
            upto,
        ),
    decreases upto,
{
    if upto > 0 {
        lemma_smart_diff_by_content(old, contents, upto - 1);
        let content = contents[upto - 1];
        let hash = text_hash_of(content);
        if old_embeddings(old).contains_key(hash) {
            let k = lemma_indexed_is_stored(old, hash);
            assert(old[k].content@ == content);
            assert(stored_with_embedding(old, content));
        } else if stored_with_embedding(old, content) {
            let k = choose|k: int|
                0 <= k < old.len() && (#[trigger] old[k]).embedding is Some && old[k].content@
                    == content;
            lemma_stored_content_is_indexed(old, k);
        }
    }
}

/// What the update of a file needs from the embedder.
pub struct SmartDiff {
    /// The content hash of each new chunk.
    pub content_hashes: Vec<String>,
    /// The contents to embed: those of the chunks that match no stored one.
    pub to_embed: Vec<String>,
}

/// Compares the new chunks of a file with its stored embeddings. A chunk
/// whose content hash is stored needs nothing; the contents of the others
/// are to be embedded, in order. With `k` chunks matching, that makes as
/// many texts as there are chunks, less `k`.
pub fn smart_diff(index: &EmbeddingIndex, contents: &Vec<String>) -> (r: SmartDiff)
    ensures
        strings_view(r.content_hashes@) == hashes_of(strings_view(contents@)),
        strings_view(r.to_embed@) == texts_to_embed(
            index@,
            strings_view(contents@),
            contents@.len() as int,
        ),
        r.to_embed@.len() == contents@.len() - matched_before(
            index@,
            hashes_of(strings_view(contents@)),
            contents@.len() as int,
        ),
{
    let ghost texts = strings_view(contents@);
    let mut content_hashes: Vec<String> = Vec::new();
    let mut to_embed: Vec<String> = Vec::new();
    let mut i: usize = 0;
    while i < contents.len()
        invariant
            i <= contents@.len(),
            texts == strings_view(contents@),
            content_hashes@.len() == i,
            forall|k: int| 0 <= k < i ==> (#[trigger] content_hashes@[k])@ == text_hash_of(texts[k]),
            strings_view(to_embed@) == texts_to_embed(index@, texts, i as int),
        decreases contents.len() - i,
    {
        let hash = text_hash(contents[i].as_str());
        if !index.contains(&hash) {
            let ghost before = to_embed@;
            to_embed.push(contents[i].clone());
            assert(strings_view(to_embed@) =~= strings_view(before).push(texts[i as int]));
        }
        content_hashes.push(hash);
        i += 1;
    }
    proof {
        assert(strings_view(content_hashes@) =~= hashes_of(texts));
        lemma_texts_to_embed_len(index@, texts, contents@.len() as int);
        lemma_matched_or_missing(index@, hashes_of(texts), contents@.len() as int);
    }
    SmartDiff { content_hashes, to_embed }
}

/// Whether an update calls the embedder: only if there is a backend and
/// at least one text to embed. It is then called once, with all of them.
pub fn needs_embed_call(backend_available: bool, diff: &SmartDiff) -> (r: bool)
    ensures
        r == (backend_available && diff.to_embed@.len() > 0),
{
    backend_available && diff.to_embed.len() > 0
}

/// The views of a list of embeddings.
pub open spec fn embeddings_view(v: Seq<Vec<u32>>) -> Seq<Seq<u32>> {
    Seq::new(v.len(), |i: int| v[i]@)
}

/// The views of a list of optional byte strings.
pub open spec fn blobs_view(v: Seq<Option<Vec<u8>>>) -> Seq<Option<Seq<u8>>> {
    Seq::new(
        v.len(),
        |i: int|
            match v[i] {
                Some(bytes) => Some(bytes@),
                None => None,
            },
    )
}

/// The embedding stored with the `i`-th new chunk: the one already stored
/// for its content if there is one; otherwise the next of the fresh
/// embeddings, serialized, as long as there are any; otherwise none.
pub open spec fn assigned_embedding(
    index: Map<Seq<char>, Seq<u8>>,
    hashes: Seq<Seq<char>>,
    fresh: Option<Seq<Seq<u32>>>,
    i: int,
) -> Option<Seq<u8>> {
    if index.contains_key(hashes[i]) {
        Some(index[hashes[i]])
    } else {
        match fresh {
            Some(vectors) => if missing_before(index, hashes, i) < vectors.len() {
                Some(serialized(vectors[missing_before(index, hashes, i) as int]))
            } else {
                None
            },
            None => None,
        }
    }
}

/// The view of an optional list of embeddings.
pub open spec fn fresh_view(fresh: Option<Vec<Vec<u32>>>) -> Option<Seq<Seq<u32>>> {
    match fresh {
        Some(vectors) => Some(embeddings_view(vectors@)),
        None => None,
    }
}

/// Gives each new chunk the bytes of its embedding: reused where its
/// content was stored before, fresh where the embedder supplied one, absent
/// otherwise. `fresh` holds what the embedder returned for the texts to
/// embed, as bit patterns, or `None` if it was not available or failed.
pub fn assign_embeddings(
    index: &EmbeddingIndex,
    content_hashes: &Vec<String>,
    fresh: &Option<Vec<Vec<u32>>>,
) -> (r: Vec<Option<Vec<u8>>>)
    ensures
        r@.len() == content_hashes@.len(),
        forall|i: int|
            0 <= i < r@.len() ==> (#[trigger] blobs_view(r@)[i]) == assigned_embedding(
                index@,
                strings_view(content_hashes@),
                fresh_view(*fresh),
                i,
            ),
{
    let ghost hashes = strings_view(content_hashes@);
    let mut out: Vec<Option<Vec<u8>>> = Vec::new();
    let mut next: usize = 0;
    let mut i: usize = 0;
    while i < content_hashes.len()
        invariant
            i <= content_hashes@.len(),
            hashes == strings_view(content_hashes@),
            out@.len() == i,
            next == missing_before(index@, hashes, i as int),
            next <= i,
            forall|k: int|
                0 <= k < i ==> (#[trigger] blobs_view(out@)[k]) == assigned_embedding(
                    index@,
                    hashes,
                    fresh_view(*fresh),
                    k,
                ),
        decreases content_hashes.len() - i,
    {
        let ghost before = out@;
        let blob: Option<Vec<u8>> = match index.get(&content_hashes[i]) {
            Some(bytes) => Some(bytes),
            None => {
                let made = match fresh {
                    Some(vectors) => {
                        if next < vectors.len() {
                            Some(f32_vec_to_bytes(vectors[next].as_slice()))
                        } else {
                            None
                        }
                    },
                    None => None,
                };
                next += 1;
                made
            },
        };
        out.push(blob);
        proof {
            assert forall|k: int| 0 <= k < i + 1 implies (#[trigger] blobs_view(out@)[k])
                == assigned_embedding(index@, hashes, fresh_view(*fresh), k) by {
                if k < i {
                    assert(blobs_view(out@)[k] == blobs_view(before)[k]);
                }
            }
        }
        i += 1;
    }
    out
}

/// The embedding stored with the `i`-th chunk of a batch: the `i`-th that
/// the embedder returned, serialized, or none if it returned too few or
/// nothing at all.
pub open spec fn batch_embedding(fresh: Option<Seq<Seq<u32>>>, i: int) -> Option<Seq<u8>> {
    match fresh {
        Some(vectors) => if 0 <= i < vectors.len() {
            Some(serialized(vectors[i]))
        } else {
            None
        },
        None => None,
    }
}

/// Gives each chunk of a batch the bytes of its embedding. `fresh` holds
/// what the embedder returned for the batch, or `None` if it was not
/// available or failed.
pub fn batch_embeddings(count: usize, fresh: &Option<Vec<Vec<u32>>>) -> (r: Vec<Option<Vec<u8>>>)
    ensures
        r@.len() == count,
        forall|i: int|
            0 <= i < count ==> (#[trigger] blobs_view(r@)[i]) == batch_embedding(
                fresh_view(*fresh),
                i,
            ),
{
    let mut out: Vec<Option<Vec<u8>>> = Vec::new();
    let mut i: usize = 0;
    while i < count
        invariant
            i <= count,
            out@.len() == i,
            forall|k: int|
                0 <= k < i ==> (#[trigger] blobs_view(out@)[k]) == batch_embedding(
                    fresh_view(*fresh),
                    k,
                ),
        decreases count - i,
    {
        let ghost before = out@;
        let blob: Option<Vec<u8>> = match fresh {
            Some(vectors) => {
                if i < vectors.len() {
                    Some(f32_vec_to_bytes(vectors[i].as_slice()))
                } else {
                    None
                }
            },
            None => None,
        };
        out.push(blob);
        proof {
            assert forall|k: int| 0 <= k < i + 1 implies (#[trigger] blobs_view(out@)[k])
                == batch_embedding(fresh_view(*fresh), k) by {
                if k < i {
                    assert(blobs_view(out@)[k] == blobs_view(before)[k]);
                }
            }
        }
        i += 1;
    }
    out
}

} // verus!
