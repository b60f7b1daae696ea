//! Context around a hit: the chunks of the same document that stand next
//! to it.

use vstd::prelude::*;

verus! {

/// Number of chunks shown on each side of a hit unless the caller says
/// otherwise.
pub const DEFAULT_CONTEXT_SIZE: usize = 5;

/// Position of the first chunk that starts on `target`, or `-1` if none
/// does.
pub open spec fn position_of_line(start_lines: Seq<usize>, target: usize) -> int
    decreases start_lines.len(),
{
    if start_lines.len() == 0 {
        -1
    } else if start_lines[0] == target {
        0
    } else {
        let rest = position_of_line(start_lines.drop_first(), target);
        if rest < 0 {
            -1
        } else {
            rest + 1
        }
    }
}

/// The number of neighbours on each side: the caller's, or the default.
pub open spec fn context_size_of(context_size: Option<usize>) -> int {
    match context_size {
        Some(n) => n as int,
        None => DEFAULT_CONTEXT_SIZE as int,
    }
}

/// The range of chunks shown around the chunk that starts on `target`:
/// `n` chunks before it and `n` after it, as far as the document reaches.
/// If no chunk starts on that line, the whole document.
pub open spec fn context_window(start_lines: Seq<usize>, target: usize, n: int) -> (int, int) {
    let at = position_of_line(start_lines, target);
    if at < 0 {
        (0, start_lines.len() as int)
    } else {
        (
            if at - n > 0 {
                at - n
            } else {
                0
            },
            if at + n + 1 < start_lines.len() {
                at + n + 1
            } else {
                start_lines.len() as int
            },
        )
    }
}

/// The position found is that of a chunk on the target line, and no
/// earlier chunk starts there.
pub proof fn lemma_position_of_line(start_lines: Seq<usize>, target: usize)
    ensures
        -1 <= position_of_line(start_lines, target) < start_lines.len(),
        position_of_line(start_lines, target) >= 0 ==> start_lines[position_of_line(
            start_lines,
            target,
        )] == target,
        forall|k: int|
            0 <= k < start_lines.len() && (k < position_of_line(start_lines, target)
                || position_of_line(start_lines, target) < 0) ==> #[trigger] start_lines[k]
                != target,
    decreases start_lines.len(),
{
    if start_lines.len() > 0 && start_lines[0] != target {
        let rest = start_lines.drop_first();
        lemma_position_of_line(rest, target);
        assert forall|k: int|
            0 <= k < start_lines.len() && (k < position_of_line(start_lines, target)
                || position_of_line(start_lines, target) < 0) implies #[trigger] start_lines[k]
            != target by {
            if k > 0 {
                assert(rest[k - 1] == start_lines[k]);
            }
        }
    }
}

/// Finds the first chunk that starts on `target`.
pub fn find_line(start_lines: &Vec<usize>, target: usize) -> (r: Option<usize>)
    ensures
        match r {
            Some(i) => i == position_of_line(start_lines@, target),
            None => position_of_line(start_lines@, target) == -1,
        },
{
    let mut i: usize = 0;
    assert(start_lines@.skip(0) =~= start_lines@);
    while i < start_lines.len()
        invariant
            i <= start_lines@.len(),
            position_of_line(start_lines@.skip(i as int), target) < 0 ==> position_of_line(
                start_lines@,
                target,
            ) == -1,
            position_of_line(start_lines@.skip(i as int), target) >= 0 ==> position_of_line(
                start_lines@,
                target,
            ) == i + position_of_line(start_lines@.skip(i as int), target),
        decreases start_lines.len() - i,
    {
        assert(start_lines@.skip(i as int).drop_first() =~= start_lines@.skip(i as int + 1));
        if start_lines[i] == target {
            return Some(i);
        }
        i += 1;
    }
    None
}

/// Chooses the chunks shown around a hit. `start_lines` holds the first
/// line of each chunk of the document, in the order in which the chunks are
/// listed; the result is the range of positions to show, its end excluded:
/// at most `n` chunks on each side of the hit, or the whole document if no
/// chunk starts on `start_line`.
pub fn select_context(start_lines: &Vec<usize>, start_line: usize, context_size: Option<usize>) -> (r:
    (usize, usize))
    ensures
        (r.0 as int, r.1 as int) == context_window(
            start_lines@,
            start_line,
            context_size_of(context_size),
        ),
        r.0 <= r.1 <= start_lines@.len(),
        position_of_line(start_lines@, start_line) >= 0 ==> r.0 <= position_of_line(
            start_lines@,
            start_line,
        ) < r.1 && r.1 - r.0 <= 2 * context_size_of(context_size) + 1,
{
    let n: usize = match context_size {
        Some(n) => n,
        None => DEFAULT_CONTEXT_SIZE,
    };
    proof {
        lemma_position_of_line(start_lines@, start_line);
    }
    match find_line(start_lines, start_line) {
        Some(at) => {
            let start: usize = if at > n {
                at - n
            } else {
                0
            };
            let room: usize = start_lines.len() - at - 1;
            let end: usize = if n < room {
                at + n + 1
            } else {
                start_lines.len()
            };
            (start, end)
        },
        None => (0, start_lines.len()),
    }
}

} // verus!
