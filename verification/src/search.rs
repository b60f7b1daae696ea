//! The integer side of hybrid retrieval: the fixed weights, the byte layout
//! of stored embeddings, and the ranking of scored candidates.
//!
//! Scores and embeddings are floating-point numbers; here each is handled by
//! its IEEE-754 bit pattern, a `u32`.

use vstd::prelude::*;

verus! {

/// Weight of the vector similarity in the hybrid score, in percent.
pub const VECTOR_WEIGHT_PERCENT: u32 = 70;

/// Weight of the lexical score in the hybrid score, in percent.
pub const BM25_WEIGHT_PERCENT: u32 = 30;

/// The two weights make up the whole score, and the vector similarity
/// weighs more than the lexical score.
pub proof fn lemma_hybrid_weights()
    ensures
        VECTOR_WEIGHT_PERCENT + BM25_WEIGHT_PERCENT == 100,
        VECTOR_WEIGHT_PERCENT > BM25_WEIGHT_PERCENT,
{
}

/// The four bytes of a word, least significant first.
pub open spec fn le_bytes(w: u32) -> Seq<u8> {
    seq![
        (w & 0xff) as u8,
        ((w >> 8) & 0xff) as u8,
        ((w >> 16) & 0xff) as u8,
        ((w >> 24) & 0xff) as u8,
    ]
}

/// The word whose bytes, least significant first, are the four given.
pub open spec fn le_word(b0: u8, b1: u8, b2: u8, b3: u8) -> u32 {
    (b0 as u32) | ((b1 as u32) << 8) | ((b2 as u32) << 16) | ((b3 as u32) << 24)
}

/// The stored form of an embedding: each word as four little-endian bytes.
pub open spec fn serialized(words: Seq<u32>) -> Seq<u8>
    decreases words.len(),
{
    if words.len() == 0 {
        Seq::empty()
    } else {
        le_bytes(words[0]) + serialized(words.drop_first())
    }
}

/// The embedding read back from its stored form; bytes beyond the last
/// whole word are ignored.
pub open spec fn deserialized(bytes: Seq<u8>) -> Seq<u32>
    decreases bytes.len(),
{
    if bytes.len() < 4 {
        Seq::empty()
    } else {
        seq![le_word(bytes[0], bytes[1], bytes[2], bytes[3])] + deserialized(bytes.skip(4))
    }
}

/// Putting a word's bytes back together gives the word.
pub proof fn lemma_word_round_trip(w: u32)
    ensures
        le_bytes(w).len() == 4,
        le_word(le_bytes(w)[0], le_bytes(w)[1], le_bytes(w)[2], le_bytes(w)[3]) == w,
{
    let b0 = (w & 0xff) as u8;
    let b1 = ((w >> 8) & 0xff) as u8;
    let b2 = ((w >> 16) & 0xff) as u8;
    let b3 = ((w >> 24) & 0xff) as u8;
    assert(le_word(b0, b1, b2, b3) == w) by (bit_vector)
        requires
            b0 == (w & 0xff) as u8,
            b1 == ((w >> 8) & 0xff) as u8,
            b2 == ((w >> 16) & 0xff) as u8,
            b3 == ((w >> 24) & 0xff) as u8,
            le_word(b0, b1, b2, b3) == (b0 as u32) | ((b1 as u32) << 8) | ((b2 as u32) << 16) | ((
            b3 as u32) << 24),
    ;
}

/// The stored form holds four bytes for each word.
pub proof fn lemma_serialized_len(words: Seq<u32>)
    ensures
        serialized(words).len() == 4 * words.len(),
    decreases words.len(),
{
    if words.len() > 0 {
        lemma_serialized_len(words.drop_first());
    }
}

/// Reading back a stored embedding gives the embedding, bit for bit.
pub proof fn lemma_serialization_round_trip(words: Seq<u32>)
    ensures
        deserialized(serialized(words)) == words,
    decreases words.len(),
{
    if words.len() > 0 {
        let head = le_bytes(words[0]);
        let rest = serialized(words.drop_first());
        lemma_word_round_trip(words[0]);
        lemma_serialization_round_trip(words.drop_first());
        assert((head + rest).skip(4) =~= rest);
        assert(deserialized(serialized(words)) =~= seq![words[0]] + words.drop_first());
        assert(seq![words[0]] + words.drop_first() =~= words);
    } else {
        assert(deserialized(serialized(words)) =~= words);
    }
}

/// Splits a word into its four bytes, least significant first.
pub fn word_to_le_bytes(w: u32) -> (r: [u8; 4])
    ensures
        r@ == le_bytes(w),
{
    assert(w & 0xff < 256 && (w >> 8) & 0xff < 256 && (w >> 16) & 0xff < 256 && (w >> 24) & 0xff
        < 256) by (bit_vector);
    let r: [u8; 4] = [
        (w & 0xff) as u8,
        ((w >> 8) & 0xff) as u8,
        ((w >> 16) & 0xff) as u8,
        ((w >> 24) & 0xff) as u8,
    ];
    assert(r@ =~= le_bytes(w));
    r
}

/// Serializes an embedding, given as the bit patterns of its numbers, into
/// the bytes under which it is stored.
pub fn f32_vec_to_bytes(vec: &[u32]) -> (r: Vec<u8>)
    ensures
        r@ == serialized(vec@),
        r@.len() == 4 * vec@.len(),
        deserialized(r@) == vec@,
{
    proof {
        lemma_serialized_len(vec@);
        lemma_serialization_round_trip(vec@);
    }
    let mut out: Vec<u8> = Vec::new();
    let mut i: usize = 0;
    assert(vec@.skip(0) =~= vec@);
    while i < vec.len()
        invariant
            i <= vec@.len(),
            out@ + serialized(vec@.skip(i as int)) == serialized(vec@),
        decreases vec.len() - i,
    {
        let bytes = word_to_le_bytes(vec[i]);
        let ghost before = out@;
        out.push(bytes[0]);
        out.push(bytes[1]);
        out.push(bytes[2]);
        out.push(bytes[3]);
        proof {
            let tail = vec@.skip(i as int);
            assert(tail.drop_first() =~= vec@.skip(i as int + 1));
            assert(tail[0] == vec@[i as int]);
            assert(out@ =~= before + le_bytes(vec@[i as int]));
            assert(out@ + serialized(vec@.skip(i as int + 1)) =~= before + serialized(tail));
        }
        i += 1;
    }
    assert(serialized(vec@.skip(i as int)) =~= Seq::<u8>::empty());
    assert(out@ + Seq::<u8>::empty() =~= out@);
    out
}

/// Reads a stored embedding back into the bit patterns of its numbers.
pub fn bytes_to_f32_vec(bytes: &[u8]) -> (r: Vec<u32>)
    ensures
        r@ == deserialized(bytes@),
{
    let mut out: Vec<u32> = Vec::new();
    let mut i: usize = 0;
    assert(bytes@.skip(0) =~= bytes@);
    while bytes.len() - i >= 4
        invariant
            i <= bytes@.len(),
            out@ + deserialized(bytes@.skip(i as int)) == deserialized(bytes@),
        decreases bytes.len() - i,
    {
        let b0 = bytes[i];
        let b1 = bytes[i + 1];
        let b2 = bytes[i + 2];
        let b3 = bytes[i + 3];
        let w: u32 = (b0 as u32) | ((b1 as u32) << 8) | ((b2 as u32) << 16) | ((b3 as u32) << 24);
        let ghost before = out@;
        out.push(w);
        proof {
            let tail = bytes@.skip(i as int);
            assert(tail.skip(4) =~= bytes@.skip(i as int + 4));
            assert(w == le_word(tail[0], tail[1], tail[2], tail[3]));
            assert(out@ + deserialized(bytes@.skip(i as int + 4)) =~= before + deserialized(
                tail,
            ));
        }
        i += 4;
    }
    assert(deserialized(bytes@.skip(i as int)) =~= Seq::<u32>::empty());
    assert(out@ + Seq::<u32>::empty() =~= out@);
    out
}

/// Number of lexical candidates fetched for each result asked for.
pub const CANDIDATE_FACTOR: usize = 3;

/// Size of the pool of lexical candidates for a query that asks for
/// `limit` results: three times as many.
pub fn candidate_pool_size(limit: usize) -> (r: usize)
    requires
        limit * CANDIDATE_FACTOR <= usize::MAX,
    ensures
        r == limit * CANDIDATE_FACTOR,
{
    limit * CANDIDATE_FACTOR
}

/// The key by which a score is ordered: the bit pattern of the score with
/// the sign bit flipped if the score is positive, and with every bit
/// flipped if it is negative. A larger score has a larger key.
pub open spec fn order_key(bits: u32) -> u32 {
    if bits & 0x8000_0000 != 0 {
        !bits
    } else {
        bits | 0x8000_0000
    }
}

/// Computes the key by which a score, given as its bit pattern, is ordered.
pub fn score_key(bits: u32) -> (r: u32)
    ensures
        r == order_key(bits),
{
    if bits & 0x8000_0000 != 0 {
        !bits
    } else {
        bits | 0x8000_0000
    }
}

/// Keys order bit patterns as the numbers they stand for: among positive
/// patterns the larger pattern has the larger key, among negative ones the
/// smaller, every negative pattern comes below every positive one, and
/// different patterns have different keys.
pub proof fn lemma_order_key(a: u32, b: u32)
    ensures
        a & 0x8000_0000 == 0 && b & 0x8000_0000 == 0 && a < b ==> order_key(a) < order_key(b),
        a & 0x8000_0000 != 0 && b & 0x8000_0000 != 0 && a < b ==> order_key(a) > order_key(b),
        a & 0x8000_0000 != 0 && b & 0x8000_0000 == 0 ==> order_key(a) < order_key(b),
        a != b ==> order_key(a) != order_key(b),
{
    assert(a & 0x8000_0000 == 0 && b & 0x8000_0000 == 0 && a < b ==> (a | 0x8000_0000) < (b
        | 0x8000_0000)) by (bit_vector);
    assert(a & 0x8000_0000 != 0 && b & 0x8000_0000 != 0 && a < b ==> !a > !b) by (bit_vector);
    assert(a & 0x8000_0000 != 0 && b & 0x8000_0000 == 0 ==> !a < (b | 0x8000_0000))
        by (bit_vector);
    assert(a != b ==> !a != !b) by (bit_vector);
    assert(a & 0x8000_0000 == 0 && b & 0x8000_0000 == 0 && a != b ==> (a | 0x8000_0000) != (b
        | 0x8000_0000)) by (bit_vector);
    assert(a & 0x8000_0000 == 0 && b & 0x8000_0000 != 0 ==> (a | 0x8000_0000) != !b)
        by (bit_vector);
}

/// A chunk with the key of its score.
#[derive(Debug, Clone, Copy, PartialEq, Eq, Structural)]
pub struct Candidate {
    pub chunk_id: i64,
    pub score_key: u32,
}

/// The order of results: the higher score first, and of two equal scores
/// the smaller chunk id.
pub open spec fn ranks_before(a: Candidate, b: Candidate) -> bool {
    a.score_key > b.score_key || (a.score_key == b.score_key && a.chunk_id < b.chunk_id)
}

/// No candidate stands behind one that it ranks before.
pub open spec fn is_ranked(s: Seq<Candidate>) -> bool {
    forall|i: int, j: int| 0 <= i < j < s.len() ==> !ranks_before(s[j], s[i])
}

/// Where `c` goes in a ranked sequence: behind every candidate that it
/// does not rank before.
pub open spec fn insert_position(sorted: Seq<Candidate>, c: Candidate) -> int
    decreases sorted.len(),
{
    if sorted.len() == 0 {
        0
    } else if ranks_before(c, sorted.last()) {
        insert_position(sorted.drop_last(), c)
    } else {
        sorted.len() as int
    }
}

/// The candidates in ranked order.
pub open spec fn ranked(s: Seq<Candidate>) -> Seq<Candidate>
    decreases s.len(),
{
    if s.len() == 0 {
        Seq::empty()
    } else {
        let before = ranked(s.drop_last());
        before.insert(insert_position(before, s.last()), s.last())
    }
}

/// The first `limit` candidates in ranked order.
pub open spec fn top_ranked(s: Seq<Candidate>, limit: usize) -> Seq<Candidate> {
    if limit < s.len() {
        ranked(s).take(limit as int)
    } else {
        ranked(s)
    }
}

/// The place of insertion lies within the sequence, everything from it on
/// is ranked after `c`, and what stands just before it is not.
pub proof fn lemma_insert_position(sorted: Seq<Candidate>, c: Candidate)
    ensures
        0 <= insert_position(sorted, c) <= sorted.len(),
        forall|k: int|
            insert_position(sorted, c) <= k < sorted.len() ==> ranks_before(c, #[trigger] sorted[k]),
        insert_position(sorted, c) > 0 ==> !ranks_before(
            c,
            sorted[insert_position(sorted, c) - 1],
        ),
    decreases sorted.len(),
{
    if sorted.len() > 0 && ranks_before(c, sorted.last()) {
        lemma_insert_position(sorted.drop_last(), c);
        let p = insert_position(sorted, c);
        assert forall|k: int| p <= k < sorted.len() implies ranks_before(c, #[trigger] sorted[k]) by {
            if k < sorted.len() - 1 {
                assert(sorted.drop_last()[k] == sorted[k]);
            }
        }
        if p > 0 {
            assert(sorted.drop_last()[p - 1] == sorted[p - 1]);
        }
    }
}

/// Ranking keeps the candidates and puts them in order: the ranked
/// sequence is a rearrangement of the given one, and no candidate in it
/// stands behind one that it ranks before.
pub proof fn lemma_ranked(s: Seq<Candidate>)
    ensures
        ranked(s).len() == s.len(),
        is_ranked(ranked(s)),
        ranked(s).to_multiset() == s.to_multiset(),
    decreases s.len(),
{
    broadcast use vstd::seq_lib::group_to_multiset_ensures;

    if s.len() == 0 {
        assert(ranked(s).to_multiset() =~= s.to_multiset());
    } else {
        let front = s.drop_last();
        let c = s.last();
        lemma_ranked(front);
        let before = ranked(front);
        lemma_insert_position(before, c);
        let p = insert_position(before, c);
        let after = before.insert(p, c);
        assert forall|i: int, j: int| 0 <= i < j < after.len() implies !ranks_before(
            after[j],
            after[i],
        ) by {
            if j < p {
                assert(after[i] == before[i] && after[j] == before[j]);
            } else if j == p {
                assert(after[i] == before[i]);
                if i < p - 1 {
                    assert(!ranks_before(before[p - 1], before[i]));
                }
            } else if i < p {
                assert(after[i] == before[i] && after[j] == before[j - 1]);
            } else if i == p {
                assert(after[j] == before[j - 1]);
                assert(ranks_before(c, before[j - 1]));
            } else {
                assert(after[i] == before[i - 1] && after[j] == before[j - 1]);
            }
        }
        assert(after.remove(p) =~= before);
        assert(after[p] == c);
        assert(before.to_multiset() =~= after.to_multiset().remove(c));
        assert(after.to_multiset().count(c) > 0);
        assert(after.to_multiset() =~= before.to_multiset().insert(c));
        assert(front.push(c) =~= s);
        assert(s.to_multiset() =~= front.to_multiset().insert(c));
    }
}

/// Tells whether `a` comes before `b` in the results.
pub fn comes_before(a: &Candidate, b: &Candidate) -> (r: bool)
    ensures
        r == ranks_before(*a, *b),
{
    a.score_key > b.score_key || (a.score_key == b.score_key && a.chunk_id < b.chunk_id)
}

/// Ranks the candidates, the best first, and keeps the first `limit`.
pub fn rank_candidates(candidates: &Vec<Candidate>, limit: usize) -> (r: Vec<Candidate>)
    ensures
        r@ == top_ranked(candidates@, limit),
{
    let mut out: Vec<Candidate> = Vec::new();
    let mut i: usize = 0;
    assert(candidates@.take(0) =~= Seq::<Candidate>::empty());
    while i < candidates.len()
        invariant
            i <= candidates@.len(),
            out@ == ranked(candidates@.take(i as int)),
            out@.len() == i,
        decreases candidates.len() - i,
    {
        let c = candidates[i];
        let mut p: usize = out.len();
        assert(out@.take(p as int) =~= out@);
        while p > 0 && comes_before(&c, &out[p - 1])
            invariant
                p <= out@.len(),
                insert_position(out@, c) == insert_position(out@.take(p as int), c),
            decreases p,
        {
            assert(out@.take(p as int).drop_last() =~= out@.take(p as int - 1));
            p -= 1;
        }
        proof {
            assert(candidates@.take(i as int + 1).drop_last() =~= candidates@.take(i as int));
            assert(candidates@.take(i as int + 1).last() == c);
            assert(insert_position(out@, c) == p);
        }
        out.insert(p, c);
        i += 1;
    }
    assert(candidates@.take(candidates@.len() as int) =~= candidates@);
    if limit < out.len() {
        out.truncate(limit);
        assert(out@ =~= ranked(candidates@).take(limit as int));
    }
    out
}

} // verus!
