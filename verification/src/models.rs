//! The records that the pipeline passes around: collections, documents,
//! chunks and the small values attached to them.

use vstd::prelude::*;

verus! {

/// A named group of documents, optionally bound to a folder on disk.
#[derive(Debug, Clone)]
pub struct Collection {
    pub id: i64,
    pub name: String,
    pub folder_path: Option<String>,
    pub file_count: i64,
    pub last_sync: Option<i64>,
    pub created_at: i64,
    pub updated_at: i64,
}

/// What extraction made of a document.
#[derive(Debug, Clone, Copy, PartialEq, Eq, Structural)]
pub enum DocumentStatus {
    Normal,
    ScannedPdf,
    Error,
}

impl DocumentStatus {
    /// The short string under which the status is persisted.
    pub open spec fn spec_as_str(self) -> Seq<char> {
        match self {
            DocumentStatus::Normal => "normal"@,
            DocumentStatus::ScannedPdf => "scanned_pdf"@,
            DocumentStatus::Error => "error"@,
        }
    }

    /// The short string under which the status is persisted.
    pub fn as_str(self) -> (r: &'static str)
        ensures
            r@ == self.spec_as_str(),
    {
        match self {
            DocumentStatus::Normal => "normal",
            DocumentStatus::ScannedPdf => "scanned_pdf",
            DocumentStatus::Error => "error",
        }
    }
}

/// One file on disk, or a `web://` pseudo-path for a clip.
#[derive(Debug, Clone)]
pub struct Document {
    pub id: i64,
    pub collection_id: i64,
    pub path: String,
    pub hash: String,
    pub last_modified: i64,
    pub created_at: i64,
    pub status: DocumentStatus,
}

/// Where a chunk sits in its document and what kind of content it holds.
#[derive(Debug, Clone)]
pub struct ChunkMetadata {
    /// Enclosing header titles, outermost first.
    pub headers: Vec<String>,
    /// "text", "code", "pdf" or "web".
    pub chunk_type: String,
    /// Language tag of a code block.
    pub language: Option<String>,
}

/// The mathematical content of a [`ChunkMetadata`].
pub struct ChunkMetadataView {
    pub headers: Seq<Seq<char>>,
    pub chunk_type: Seq<char>,
    pub language: Option<Seq<char>>,
}

/// The views of a sequence of strings.
pub open spec fn strings_view(v: Seq<String>) -> Seq<Seq<char>> {
    Seq::new(v.len(), |i: int| v[i]@)
}

/// The view of an optional string.
pub open spec fn opt_string_view(o: Option<String>) -> Option<Seq<char>> {
    match o {
        Some(s) => Some(s@),
        None => None,
    }
}

impl View for ChunkMetadata {
    type V = ChunkMetadataView;

    open spec fn view(&self) -> ChunkMetadataView {
        ChunkMetadataView {
            headers: strings_view(self.headers@),
            chunk_type: self.chunk_type@,
            language: opt_string_view(self.language),
        }
    }
}

/// A contiguous slice of a document, the unit of indexing and retrieval.
#[derive(Debug, Clone)]
pub struct Chunk {
    pub id: i64,
    pub doc_id: i64,
    pub content: String,
    pub metadata: Option<ChunkMetadata>,
    pub start_line: usize,
    pub end_line: usize,
    pub created_at: i64,
}

/// The mathematical content of a [`Chunk`].
pub struct ChunkView {
    pub id: i64,
    pub doc_id: i64,
    pub content: Seq<char>,
    pub metadata: Option<ChunkMetadataView>,
    pub start_line: usize,
    pub end_line: usize,
    pub created_at: i64,
}

impl View for Chunk {
    type V = ChunkView;

    open spec fn view(&self) -> ChunkView {
        ChunkView {
            id: self.id,
            doc_id: self.doc_id,
            content: self.content@,
            metadata: match self.metadata {
                Some(m) => Some(m@),
                None => None,
            },
            start_line: self.start_line,
            end_line: self.end_line,
            created_at: self.created_at,
        }
    }
}

/// The views of a sequence of chunks.
pub open spec fn chunks_view(v: Seq<Chunk>) -> Seq<ChunkView> {
    Seq::new(v.len(), |i: int| v[i]@)
}

/// A query as the caller states it.
#[derive(Debug, Clone)]
pub struct SearchQuery {
    pub query: String,
    pub collection_id: Option<i64>,
    pub limit: usize,
}

/// Progress of one indexing run.
#[derive(Debug, Clone)]
pub struct IndexProgress {
    pub total_files: usize,
    pub processed_files: usize,
    pub current_file: Option<String>,
    pub errors: Vec<String>,
    pub status: String,
}

/// The mathematical content of an [`IndexProgress`].
pub struct IndexProgressView {
    pub total_files: usize,
    pub processed_files: usize,
    pub current_file: Option<Seq<char>>,
    pub errors: Seq<Seq<char>>,
    pub status: Seq<char>,
}

impl View for IndexProgress {
    type V = IndexProgressView;

    open spec fn view(&self) -> IndexProgressView {
        IndexProgressView {
            total_files: self.total_files,
            processed_files: self.processed_files,
            current_file: opt_string_view(self.current_file),
            errors: strings_view(self.errors@),
            status: self.status@,
        }
    }
}

/// Copies a list of strings.
pub fn clone_strings(v: &Vec<String>) -> (r: Vec<String>)
    ensures
        strings_view(r@) == strings_view(v@),
{
    let mut r: Vec<String> = Vec::new();
    let mut i: usize = 0;
    while i < v.len()
        invariant
            i <= v.len(),
            r@.len() == i,
            forall|k: int| 0 <= k < i ==> r@[k]@ == v@[k]@,
        decreases v.len() - i,
    {
        r.push(v[i].clone());
        i += 1;
    }
    assert(strings_view(r@) =~= strings_view(v@));
    r
}

/// Copies an optional string.
pub fn clone_opt_string(o: &Option<String>) -> (r: Option<String>)
    ensures
        opt_string_view(r) == opt_string_view(*o),
{
    match o {
        Some(s) => Some(s.clone()),
        None => None,
    }
}

} // verus!
