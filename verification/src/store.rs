//! Decisions about stored documents that do not need the store itself.

use vstd::prelude::*;

verus! {

/// A stored document and whether its file is still on disk.
#[derive(Debug, Clone, Copy, PartialEq, Eq, Structural)]
pub struct StoredFile {
    pub doc_id: i64,
    pub exists: bool,
}

/// The ids, among the first `upto` documents, whose file is gone, in
/// order.
pub open spec fn ghosts(files: Seq<StoredFile>, upto: int) -> Seq<i64>
    decreases upto,
{
    if upto <= 0 {
        Seq::empty()
    } else if files[upto - 1].exists {
        ghosts(files, upto - 1)
    } else {
        ghosts(files, upto - 1).push(files[upto - 1].doc_id)
    }
}

/// A document is a ghost exactly if its file is gone.
pub proof fn lemma_ghosts(files: Seq<StoredFile>, upto: int)
    requires
        0 <= upto <= files.len(),
    ensures
        ghosts(files, upto).len() <= upto,
        forall|k: int|
            0 <= k < upto && !files[k].exists ==> ghosts(files, upto).contains(
                #[trigger] files[k].doc_id,
            ),
        forall|id: i64|
            ghosts(files, upto).contains(id) ==> exists|k: int|
                0 <= k < upto && !files[k].exists && #[trigger] files[k].doc_id == id,
    decreases upto,
{
    if upto > 0 {
        lemma_ghosts(files, upto - 1);
        let before = ghosts(files, upto - 1);
        let after = ghosts(files, upto);
        if !files[upto - 1].exists {
            assert(after.last() == files[upto - 1].doc_id);
            assert forall|k: int| 0 <= k < upto && !files[k].exists implies after.contains(
                #[trigger] files[k].doc_id,
            ) by {
                if k < upto - 1 {
                    let at = choose|at: int| 0 <= at < before.len() && before[at] == files[k].doc_id;
                    assert(after[at] == files[k].doc_id);
                } else {
                    assert(after[after.len() - 1] == files[k].doc_id);
                }
            }
            assert forall|id: i64| after.contains(id) implies exists|k: int|
                0 <= k < upto && !files[k].exists && #[trigger] files[k].doc_id == id by {
                let at = choose|at: int| 0 <= at < after.len() && after[at] == id;
                if at < before.len() {
                    assert(before[at] == id);
                    assert(before.contains(id));
                    let k = choose|k: int|
                        0 <= k < upto - 1 && !files[k].exists && #[trigger] files[k].doc_id == id;
                    assert(0 <= k < upto && !files[k].exists && files[k].doc_id == id);
                } else {
                    assert(files[upto - 1].doc_id == id);
                }
            }
        } else {
            assert forall|id: i64| after.contains(id) implies exists|k: int|
                0 <= k < upto && !files[k].exists && #[trigger] files[k].doc_id == id by {
                let k = choose|k: int|
                    0 <= k < upto - 1 && !files[k].exists && #[trigger] files[k].doc_id == id;
                assert(0 <= k < upto && !files[k].exists && files[k].doc_id == id);
            }
        }
    }
}

/// Picks the ghost documents: those whose file no longer exists. The
/// number of ids returned is the number of documents to remove.
pub fn select_ghosts(files: &Vec<StoredFile>) -> (r: Vec<i64>)
    ensures
        r@ == ghosts(files@, files@.len() as int),
{
    let mut out: Vec<i64> = Vec::new();
    let mut i: usize = 0;
    while i < files.len()
        invariant
            i <= files@.len(),
            out@ == ghosts(files@, i as int),
        decreases files.len() - i,
    {
        if !files[i].exists {
            out.push(files[i].doc_id);
        }
        i += 1;
    }
    out
}

} // verus!
