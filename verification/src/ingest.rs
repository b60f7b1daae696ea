//! The decisions of ingestion: which files are indexed, to which collection
//! a file belongs, and which chunks of a changed file can keep the embedding
//! they already have.

use vstd::prelude::*;
use crate::models::{Collection, DocumentStatus};
use crate::pdf_parser::{PdfStatus, PdfStatusView};
use crate::text::{starts_with, str_chars, str_eq};

verus! {

/// The file extensions that are indexed.
pub open spec fn indexable(extension: Seq<char>) -> bool {
    extension == "md"@ || extension == "markdown"@ || extension == "pdf"@
}

/// Tells whether a file with this extension is indexed.
pub fn is_indexable_extension(extension: &str) -> (r: bool)
    ensures
        r == indexable(extension@),
{
    str_eq(extension, "md") || str_eq(extension, "markdown") || str_eq(extension, "pdf")
}

/// The status under which a document is recorded after extraction.
pub open spec fn status_after(status: PdfStatusView) -> DocumentStatus {
    match status {
        PdfStatusView::Success { .. } => DocumentStatus::Normal,
        PdfStatusView::ScannedPdf { .. } => DocumentStatus::ScannedPdf,
        PdfStatusView::Error(_) => DocumentStatus::Error,
    }
}

/// The status under which a PDF is recorded, given how extraction went.
pub fn document_status(status: &PdfStatus) -> (r: DocumentStatus)
    ensures
        r == status_after(status@),
{
    match status {
        PdfStatus::Success { .. } => DocumentStatus::Normal,
        PdfStatus::ScannedPdf { .. } => DocumentStatus::ScannedPdf,
        PdfStatus::Error(_) => DocumentStatus::Error,
    }
}

/// Whether `path` lies under the folder of `collection`.
pub open spec fn watches(collection: Collection, path: Seq<char>) -> bool {
    match collection.folder_path {
        Some(folder) => folder@.is_prefix_of(path),
        None => false,
    }
}

/// The id of the first collection whose folder holds `path`.
pub open spec fn first_watching(collections: Seq<Collection>, path: Seq<char>) -> Option<i64>
    decreases collections.len(),
{
    if collections.len() == 0 {
        None
    } else if watches(collections[0], path) {
        Some(collections[0].id)
    } else {
        first_watching(collections.drop_first(), path)
    }
}

/// Finds the collection to which a new file belongs: the first one whose
/// folder path is a prefix of the file's path.
pub fn find_collection_for_path(collections: &Vec<Collection>, file_path: &str) -> (r: Option<
    i64,
>)
    ensures
        r == first_watching(collections@, file_path@),
{
    let path = str_chars(file_path);
    let mut i: usize = 0;
    assert(collections@.skip(0) =~= collections@);
    while i < collections.len()
        invariant
            i <= collections@.len(),
            path@ == file_path@,
            first_watching(collections@, file_path@) == first_watching(
                collections@.skip(i as int),
                file_path@,
            ),
        decreases collections.len() - i,
    {
        proof {
            assert(collections@.skip(i as int).drop_first() =~= collections@.skip(i as int + 1));
        }
        let found = match &collections[i].folder_path {
            Some(folder) => starts_with(&path, &str_chars(folder.as_str())),
            None => false,
        };
        if found {
            return Some(collections[i].id);
        }
        i += 1;
    }
    None
}

/// How an incremental update of one file begins.
#[derive(Debug, Clone, Copy, PartialEq, Eq, Structural)]
pub enum UpdateStart {
    /// The file is gone: remove its document.
    Remove,
    /// The file is not a document, or belongs to no collection.
    Ignore,
    /// Extract the file and update it in the given collection.
    Proceed(i64),
}

/// The first decision of an incremental update. A file that is gone is
/// removed; one that is no document is ignored; otherwise the file stays in
/// the collection of its stored document, or goes to the first collection
/// whose folder holds it, and is ignored if there is none.
pub open spec fn update_start(
    file_exists: bool,
    extension: Seq<char>,
    document_collection: Option<i64>,
    collections: Seq<Collection>,
    path: Seq<char>,
) -> UpdateStart {
    if !file_exists {
        UpdateStart::Remove
    } else if !indexable(extension) {
        UpdateStart::Ignore
    } else {
        match document_collection {
            Some(id) => UpdateStart::Proceed(id),
            None => match first_watching(collections, path) {
                Some(id) => UpdateStart::Proceed(id),
                None => UpdateStart::Ignore,
            },
        }
    }
}

/// Decides how the incremental update of `file_path` begins, given whether
/// the file exists, its extension, and the collection of its stored
/// document if it has one.
pub fn decide_update(
    file_exists: bool,
    extension: &str,
    document_collection: Option<i64>,
    collections: &Vec<Collection>,
    file_path: &str,
) -> (r: UpdateStart)
    ensures
        r == update_start(
            file_exists,
            extension@,
            document_collection,
            collections@,
            file_path@,
        ),
{
    if !file_exists {
        return UpdateStart::Remove;
    }
    if !is_indexable_extension(extension) {
        return UpdateStart::Ignore;
    }
    match document_collection {
        Some(id) => UpdateStart::Proceed(id),
        None => match find_collection_for_path(collections, file_path) {
            Some(id) => UpdateStart::Proceed(id),
            None => UpdateStart::Ignore,
        },
    }
}

/// Tells whether a file is unchanged: a document is stored for it under
/// the very hash that the file has now.
pub fn is_unchanged(stored_hash: &Option<String>, hash: &str) -> (r: bool)
    ensures
        r == match *stored_hash {
            Some(stored) => stored@ == hash@,
            None => false,
        },
{
    match stored_hash {
        Some(stored) => str_eq(stored.as_str(), hash),
        None => false,
    }
}

} // verus!
