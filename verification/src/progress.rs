//! Progress of the indexing runs, one record per collection.

use vstd::prelude::*;
use std::collections::HashMap;
use crate::models::{clone_opt_string, clone_strings, opt_string_view, IndexProgress, IndexProgressView};

verus! {

broadcast use vstd::std_specs::hash::group_hash_axioms;

/// Copies a progress record.
pub fn clone_progress(p: &IndexProgress) -> (r: IndexProgress)
    ensures
        r@ == p@,
{
    IndexProgress {
        total_files: p.total_files,
        processed_files: p.processed_files,
        current_file: clone_opt_string(&p.current_file),
        errors: clone_strings(&p.errors),
        status: p.status.clone(),
    }
}

/// Tracks the progress of indexing, keyed by collection id.
pub struct ProgressTracker {
    progress_map: HashMap<i64, IndexProgress>,
}

impl View for ProgressTracker {
    type V = Map<i64, IndexProgressView>;

    closed spec fn view(&self) -> Map<i64, IndexProgressView> {
        Map::new(
            |k: i64| self.progress_map@.contains_key(k),
            |k: i64| self.progress_map@[k]@,
        )
    }
}

impl ProgressTracker {
    /// A tracker with no record.
    pub fn new() -> (r: Self)
        ensures
            r@ == Map::<i64, IndexProgressView>::empty(),
    {
        let r = ProgressTracker { progress_map: HashMap::new() };
        assert(r@ =~= Map::<i64, IndexProgressView>::empty());
        r
    }

    /// Sets the record of a collection, replacing any earlier one.
    pub fn update(&mut self, collection_id: i64, progress: IndexProgress)
        ensures
            final(self)@ == old(self)@.insert(collection_id, progress@),
    {
        self.progress_map.insert(collection_id, progress);
        assert(self@ =~= old(self)@.insert(collection_id, progress@));
    }

    /// The record of a collection, if it has one.
    pub fn get(&self, collection_id: i64) -> (r: Option<IndexProgress>)
        ensures
            match r {
                Some(p) => self@.contains_key(collection_id) && p@ == self@[collection_id],
                None => !self@.contains_key(collection_id),
            },
    {
        match self.progress_map.get(&collection_id) {
            Some(p) => Some(clone_progress(p)),
            None => None,
        }
    }

    /// Drops the record of a collection.
    pub fn clear(&mut self, collection_id: i64)
        ensures
            final(self)@ == old(self)@.remove(collection_id),
    {
        self.progress_map.remove(&collection_id);
        assert(self@ =~= old(self)@.remove(collection_id));
    }

    /// Sets the file being processed, if the collection has a record.
    pub fn update_current_file(&mut self, collection_id: i64, current_file: Option<String>)
        ensures
            final(self)@ == if old(self)@.contains_key(collection_id) {
                old(self)@.insert(
                    collection_id,
                    IndexProgressView {
                        current_file: opt_string_view(current_file),
                        ..old(self)@[collection_id]
                    },
                )
            } else {
                old(self)@
            },
    {
        match self.progress_map.remove(&collection_id) {
            Some(p) => {
                let mut p = p;
                p.current_file = current_file;
                self.progress_map.insert(collection_id, p);
                assert(self@ =~= old(self)@.insert(
                    collection_id,
                    IndexProgressView {
                        current_file: opt_string_view(current_file),
                        ..old(self)@[collection_id]
                    },
                ));
            },
            None => {
                assert(self@ =~= old(self)@);
            },
        }
    }

    /// Counts one more processed file, if the collection has a record.
    pub fn increment_processed(&mut self, collection_id: i64)
        requires
            old(self)@.contains_key(collection_id) ==> old(self)@[collection_id].processed_files
                < usize::MAX,
        ensures
            final(self)@ == if old(self)@.contains_key(collection_id) {
                old(self)@.insert(
                    collection_id,
                    IndexProgressView {
                        processed_files: (old(self)@[collection_id].processed_files + 1) as usize,
                        ..old(self)@[collection_id]
                    },
                )
            } else {
                old(self)@
            },
    {
        match self.progress_map.remove(&collection_id) {
            Some(p) => {
                let mut p = p;
                assert(p@ == old(self)@[collection_id]);
                p.processed_files = p.processed_files + 1;
                self.progress_map.insert(collection_id, p);
                assert(self@ =~= old(self)@.insert(
                    collection_id,
                    IndexProgressView {
                        processed_files: (old(self)@[collection_id].processed_files + 1) as usize,
                        ..old(self)@[collection_id]
                    },
                ));
            },
            None => {
                assert(self@ =~= old(self)@);
            },
        }
    }

    /// Appends an error message, if the collection has a record.
    pub fn add_error(&mut self, collection_id: i64, error: String)
        ensures
            final(self)@ == if old(self)@.contains_key(collection_id) {
                old(self)@.insert(
                    collection_id,
                    IndexProgressView {
                        errors: old(self)@[collection_id].errors.push(error@),
                        ..old(self)@[collection_id]
                    },
                )
            } else {
                old(self)@
            },
    {
        match self.progress_map.remove(&collection_id) {
            Some(p) => {
                let mut p = p;
                let ghost before = p.errors@;
                p.errors.push(error);
                assert(crate::models::strings_view(p.errors@) =~= crate::models::strings_view(
                    before,
                ).push(error@));
                self.progress_map.insert(collection_id, p);
                assert(self@ =~= old(self)@.insert(
                    collection_id,
                    IndexProgressView {
                        errors: old(self)@[collection_id].errors.push(error@),
                        ..old(self)@[collection_id]
                    },
                ));
            },
            None => {
                assert(self@ =~= old(self)@);
            },
        }
    }
}

impl Default for ProgressTracker {
    fn default() -> (r: Self)
        ensures
            r@ == Map::<i64, IndexProgressView>::empty(),
    {
        ProgressTracker::new()
    }
}

} // verus!
