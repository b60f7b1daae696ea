//! Clips sent by a browser extension: how a clipped page is named, what
//! text is stored for it, and how the outcome is reported.

use vstd::prelude::*;
use vstd::string::StringExecFns;
use crate::models::{opt_string_view, strings_view, Chunk, ChunkMetadata, ChunkMetadataView, ChunkView};

verus! {

/// The collection that takes a clip which names none.
pub const DEFAULT_CLIP_COLLECTION: i64 = 1;

/// What the local endpoint needs to reach the store.
#[derive(Debug, Clone)]
pub struct ServerState {
    pub db_path: String,
}

/// A page, or a part of one, as the extension sends it.
#[derive(Debug, Clone)]
pub struct ClipRequest {
    pub url: String,
    pub title: String,
    pub content: String,
    pub context: Option<String>,
    pub collection_id: Option<i64>,
    pub timestamp: String,
    pub source: String,
}

/// The answer to a clip.
#[derive(Debug, Clone)]
pub struct ClipResponse {
    pub success: bool,
    pub message: String,
    pub document_id: Option<i64>,
}

/// The answer to a health check.
#[derive(Debug, Clone)]
pub struct HealthResponse {
    pub status: String,
    pub version: String,
}

/// The path under which a clipped page is stored: its address behind
/// `web://`.
pub open spec fn clip_path(url: Seq<char>) -> Seq<char> {
    "web://"@ + url
}

/// The pseudo-path of a clipped page.
pub fn web_clip_path(url: &str) -> (r: String)
    ensures
        r@ == clip_path(url@),
{
    let mut path = "web://".to_owned();
    path.append(url);
    path
}

/// The text stored for a clip: the title as a heading, the content, and,
/// where the clip has any, its context below a rule.
pub open spec fn clip_content(
    title: Seq<char>,
    content: Seq<char>,
    context: Option<Seq<char>>,
) -> Seq<char> {
    let body = "# "@ + title + "\n\n"@ + content;
    match context {
        Some(context) => body + "\n\n---\n\nContext:\n"@ + context,
        None => body,
    }
}

/// The text stored for a clip.
pub fn web_clip_content(title: &str, content: &str, context: &Option<String>) -> (r: String)
    ensures
        r@ == clip_content(title@, content@, opt_string_view(*context)),
{
    let mut text = "# ".to_owned();
    text.append(title);
    text.append("\n\n");
    text.append(content);
    match context {
        Some(context) => {
            text.append("\n\n---\n\nContext:\n");
            text.append(context.as_str());
        },
        None => {},
    }
    text
}

/// The collection that takes a clip: the one it names, or the default.
pub fn web_clip_collection(collection_id: Option<i64>) -> (r: i64)
    ensures
        r == match collection_id {
            Some(id) => id,
            None => DEFAULT_CLIP_COLLECTION,
        },
{
    match collection_id {
        Some(id) => id,
        None => DEFAULT_CLIP_COLLECTION,
    }
}

/// The single chunk of a clipped page: its text on line 1, of type `web`,
/// under the page's title.
pub open spec fn clip_chunk(
    doc_id: i64,
    title: Seq<char>,
    content: Seq<char>,
    context: Option<Seq<char>>,
    now: i64,
) -> ChunkView {
    ChunkView {
        id: 0,
        doc_id,
        content: clip_content(title, content, context),
        metadata: Some(
            ChunkMetadataView { headers: seq![title], chunk_type: "web"@, language: None },
        ),
        start_line: 1,
        end_line: 1,
        created_at: now,
    }
}

/// Builds the chunk under which a clip is stored.
pub fn web_clip_chunk(doc_id: i64, clip: &ClipRequest, now: i64) -> (r: Chunk)
    ensures
        r@ == clip_chunk(
            doc_id,
            clip.title@,
            clip.content@,
            opt_string_view(clip.context),
            now,
        ),
{
    let mut headers: Vec<String> = Vec::new();
    headers.push(clip.title.clone());
    assert(strings_view(headers@) =~= seq![clip.title@]);
    Chunk {
        id: 0,
        doc_id,
        content: web_clip_content(clip.title.as_str(), clip.content.as_str(), &clip.context),
        metadata: Some(ChunkMetadata { headers, chunk_type: "web".to_owned(), language: None }),
        start_line: 1,
        end_line: 1,
        created_at: now,
    }
}

/// The answer to a clip, given the id of the stored document or the
/// store's error message.
pub fn clip_response(stored: Result<i64, String>) -> (r: ClipResponse)
    ensures
        match stored {
            Ok(id) => r.success && r.message@ == "Content clipped successfully"@ && r.document_id
                == Some(id),
            Err(error) => !r.success && r.message@ == "Failed to store clip: "@ + error@
                && r.document_id is None,
        },
{
    match stored {
        Ok(id) => ClipResponse {
            success: true,
            message: "Content clipped successfully".to_owned(),
            document_id: Some(id),
        },
        Err(error) => {
            let mut message = "Failed to store clip: ".to_owned();
            message.append(error.as_str());
            ClipResponse { success: false, message, document_id: None }
        },
    }
}

/// The answer to a health check for the given version.
pub fn health_response(version: &str) -> (r: HealthResponse)
    ensures
        r.status@ == "ok"@,
        r.version@ == version@,
{
    HealthResponse { status: "ok".to_owned(), version: version.to_owned() }
}

} // verus!
