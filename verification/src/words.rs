//! Field values that are 64-bit numbers, or vectors of them, as bytes:
//! each number in little-endian order, one after the other.

use vstd::bytes::{
    lemma_auto_spec_u64_to_from_le_bytes, spec_u64_from_le_bytes, spec_u64_to_le_bytes,
    spec_u64_to_le_bytes_to_open, u64_from_le_bytes, u64_to_le_bytes,
};
use vstd::prelude::*;

verus! {

/// The bytes of a vector of numbers.
pub open spec fn spec_encode_words(words: Seq<u64>) -> Seq<u8>
    decreases words.len(),
{
    if words.len() == 0 {
        Seq::empty()
    } else {
        spec_encode_words(words.drop_last()) + spec_u64_to_le_bytes(words.last())
    }
}

/// `bytes` with the eight bytes of word `k` set to zero.
pub open spec fn spec_zero_word(bytes: Seq<u8>, k: int) -> Seq<u8> {
    Seq::new(
        bytes.len(),
        |j: int|
            if 8 * k <= j < 8 * k + 8 {
                0u8
            } else {
                bytes[j]
            },
    )
}

/// The bytes of a number.
pub fn encode_word(x: u64) -> (out: Vec<u8>)
    ensures
        out@ == spec_u64_to_le_bytes(x),
        out@.len() == 8,
{
    u64_to_le_bytes(x)
}

/// The number that eight bytes hold; nothing for another length.
pub fn decode_word(bytes: &Vec<u8>) -> (out: Option<u64>)
    ensures
        out == if bytes@.len() == 8 {
            Some(spec_u64_from_le_bytes(bytes@))
        } else {
            None
        },
{
    if bytes.len() != 8 {
        return None;
    }
    Some(u64_from_le_bytes(bytes.as_slice()))
}

/// A vector of `n` numbers takes `8n` bytes.
pub proof fn lemma_encode_words_len(words: Seq<u64>)
    ensures
        spec_encode_words(words).len() == 8 * words.len(),
    decreases words.len(),
{
    lemma_auto_spec_u64_to_from_le_bytes();
    if words.len() > 0 {
        lemma_encode_words_len(words.drop_last());
    }
}

/// The bytes of a vector of numbers.
pub fn encode_words(words: &Vec<u64>) -> (out: Vec<u8>)
    ensures
        out@ == spec_encode_words(words@),
        out@.len() == 8 * words@.len(),
{
    let mut out: Vec<u8> = Vec::new();
    let mut k: usize = 0;
    while k < words.len()
        invariant
            k <= words@.len(),
            out@ == spec_encode_words(words@.subrange(0, k as int)),
        decreases words@.len() - k,
    {
        let mut word = encode_word(words[k]);
        proof {
            let upto = words@.subrange(0, k + 1);
            assert(upto.drop_last() == words@.subrange(0, k as int));
            assert(upto.last() == words@[k as int]);
        }
        out.append(&mut word);
        k = k + 1;
    }
    proof {
        assert(words@.subrange(0, k as int) == words@);
        lemma_encode_words_len(words@);
    }
    out
}

/// The bytes of the number zero are eight zero bytes.
pub proof fn lemma_zero_bytes()
    ensures
        spec_u64_to_le_bytes(0) == Seq::new(8, |j: int| 0u8),
{
    spec_u64_to_le_bytes_to_open(0);
    assert(0u64 & 0xff == 0) by (bit_vector);
    assert((0u64 >> 8) & 0xff == 0) by (bit_vector);
    assert((0u64 >> 16) & 0xff == 0) by (bit_vector);
    assert((0u64 >> 24) & 0xff == 0) by (bit_vector);
    assert((0u64 >> 32) & 0xff == 0) by (bit_vector);
    assert((0u64 >> 40) & 0xff == 0) by (bit_vector);
    assert((0u64 >> 48) & 0xff == 0) by (bit_vector);
    assert((0u64 >> 56) & 0xff == 0) by (bit_vector);
    assert(spec_u64_to_le_bytes(0) =~= Seq::new(8, |j: int| 0u8));
}

/// Setting word `k` of the bytes of a vector to zero gives the bytes of the
/// vector with entry `k` set to zero.
pub proof fn lemma_zero_word(words: Seq<u64>, k: int)
    requires
        0 <= k < words.len(),
    ensures
        spec_zero_word(spec_encode_words(words), k) == spec_encode_words(words.update(k, 0)),
    decreases words.len(),
{
    lemma_auto_spec_u64_to_from_le_bytes();
    lemma_encode_words_len(words);
    lemma_encode_words_len(words.drop_last());
    let changed = words.update(k, 0);
    lemma_encode_words_len(changed);
    if k == words.len() - 1 {
        lemma_zero_bytes();
        assert(changed.drop_last() == words.drop_last());
        assert(spec_zero_word(spec_encode_words(words), k) =~= spec_encode_words(changed));
    } else {
        lemma_zero_word(words.drop_last(), k);
        assert(changed.drop_last() == words.drop_last().update(k, 0));
        assert(changed.last() == words.last());
        lemma_encode_words_len(changed.drop_last());
        assert(spec_zero_word(spec_encode_words(words), k) =~= spec_zero_word(
            spec_encode_words(words.drop_last()),
            k,
        ) + spec_u64_to_le_bytes(words.last()));
    }
}

/// `bytes` with the eight bytes of word `k` set to zero.
pub fn zero_word(bytes: &Vec<u8>, k: usize) -> (out: Vec<u8>)
    ensures
        out@ == spec_zero_word(bytes@, k as int),
{
    let mut out: Vec<u8> = Vec::new();
    let mut j: usize = 0;
    while j < bytes.len()
        invariant
            j <= bytes@.len(),
            out@.len() == j,
            forall|i: int| 0 <= i < j ==> out@[i] == spec_zero_word(bytes@, k as int)[i],
        decreases bytes@.len() - j,
    {
        if j / 8 == k {
            out.push(0u8);
        } else {
            out.push(bytes[j]);
        }
        j = j + 1;
    }
    assert(out@ =~= spec_zero_word(bytes@, k as int));
    out
}

} // verus!
