//! The integer side of the embedding backend: the shape of the input that
//! the model is given.

use vstd::prelude::*;

verus! {

/// Number of tokens that the model reads of each text.
pub const MAX_SEQ_LENGTH: usize = 512;

/// Number of components of an embedding.
pub const EMBEDDING_DIM: usize = 1024;

/// One row of model input: the first `width` values, with zeros where the
/// text has fewer.
pub open spec fn padded(values: Seq<u32>, width: usize) -> Seq<i64> {
    Seq::new(
        width as nat,
        |i: int|
            if i < values.len() {
                values[i] as i64
            } else {
                0i64
            },
    )
}

/// The rows of all texts, one after another.
pub open spec fn padded_rows(rows: Seq<Seq<u32>>, width: usize) -> Seq<i64>
    decreases rows.len(),
{
    if rows.len() == 0 {
        Seq::empty()
    } else {
        padded_rows(rows.drop_last(), width) + padded(rows.last(), width)
    }
}

/// The views of a sequence of rows.
pub open spec fn rows_view(rows: Seq<Vec<u32>>) -> Seq<Seq<u32>> {
    Seq::new(rows.len(), |i: int| rows[i]@)
}

/// The input has `width` values for each text.
pub proof fn lemma_padded_rows_len(rows: Seq<Seq<u32>>, width: usize)
    ensures
        padded_rows(rows, width).len() == rows.len() * width,
    decreases rows.len(),
{
    if rows.len() > 0 {
        lemma_padded_rows_len(rows.drop_last(), width);
        assert(rows.len() * width == (rows.len() - 1) * width + width) by (nonlinear_arith);
    } else {
        assert(rows.len() * width == 0) by (nonlinear_arith)
            requires
                rows.len() == 0,
        ;
    }
}

/// Appends to `out` one row of model input: the token values cut or
/// padded with zeros to `width`.
pub fn push_padded(out: &mut Vec<i64>, values: &Vec<u32>, width: usize)
    ensures
        final(out)@ == old(out)@ + padded(values@, width),
{
    let mut i: usize = 0;
    assert(out@ =~= old(out)@ + padded(values@, width).take(0));
    while i < width
        invariant
            i <= width,
            out@ == old(out)@ + padded(values@, width).take(i as int),
        decreases width - i,
    {
        let value: i64 = if i < values.len() {
            values[i] as i64
        } else {
            0
        };
        out.push(value);
        assert(out@ =~= old(out)@ + padded(values@, width).take(i as int + 1));
        i += 1;
    }
    assert(padded(values@, width).take(width as int) =~= padded(values@, width));
}

/// Lays out the token values of a batch of texts as the model reads them:
/// one row of `MAX_SEQ_LENGTH` values for each text, longer texts cut and
/// shorter ones padded with zeros. The same serves for attention masks.
pub fn build_model_input(rows: &Vec<Vec<u32>>) -> (r: Vec<i64>)
    ensures
        r@ == padded_rows(rows_view(rows@), MAX_SEQ_LENGTH),
        r@.len() == rows@.len() * MAX_SEQ_LENGTH,
{
    let ghost all = rows_view(rows@);
    let mut out: Vec<i64> = Vec::new();
    let mut i: usize = 0;
    assert(all.take(0) =~= Seq::<Seq<u32>>::empty());
    while i < rows.len()
        invariant
            i <= rows@.len(),
            all == rows_view(rows@),
            out@ == padded_rows(all.take(i as int), MAX_SEQ_LENGTH),
        decreases rows.len() - i,
    {
        proof {
            assert(all.take(i as int + 1).drop_last() =~= all.take(i as int));
            assert(all.take(i as int + 1).last() == rows@[i as int]@);
        }
        push_padded(&mut out, &rows[i], MAX_SEQ_LENGTH);
        i += 1;
    }
    proof {
        assert(all.take(rows@.len() as int) =~= all);
        lemma_padded_rows_len(all, MAX_SEQ_LENGTH);
    }
    out
}

} // verus!
