//! The domain expansion: a 32-byte value becomes a 64-byte hash input.

use vstd::prelude::*;

verus! {

/// The little-endian 32-bit word `i` of `s`.
pub open spec fn le_word(s: Seq<u8>, i: int) -> int {
    s[4 * i] + 256 * s[4 * i + 1] + 65536 * s[4 * i + 2] + 16777216 * s[4 * i + 3]
}

/// The expansion of a 32-byte value: the value itself, then its eight
/// little-endian words in reverse order, each complemented and written back
/// little-endian. Complementing a word complements each of its bytes, so
/// byte `k` of the second half is the complement of byte `k % 4` of word
/// `7 - k / 4`.
pub open spec fn expand_spec(x: Seq<u8>) -> Seq<u8> {
    x + Seq::new(32, |k: int| (255 - x[4 * (7 - k / 4) + k % 4]) as u8)
}

/// The second half of an expansion, read as words: word `i` is the
/// complement of word `7 - i` of the input.
pub proof fn lemma_expand_words(x: Seq<u8>)
    requires
        x.len() == 32,
    ensures
        expand_spec(x).len() == 64,
        expand_spec(x).take(32) == x,
        forall|i: int| 0 <= i < 8 ==> #[trigger] le_word(expand_spec(x), 8 + i) == 0xffff_ffff - le_word(x, 7 - i),
{
    let e = expand_spec(x);
    assert(e.take(32) =~= x);
    assert forall|i: int| 0 <= i < 8 implies #[trigger] le_word(e, 8 + i) == 0xffff_ffff - le_word(x, 7 - i) by {
        let w = 7 - i;
        assert(e[4 * (8 + i)] == 255 - x[4 * w]);
        assert(e[4 * (8 + i) + 1] == 255 - x[4 * w + 1]);
        assert(e[4 * (8 + i) + 2] == 255 - x[4 * w + 2]);
        assert(e[4 * (8 + i) + 3] == 255 - x[4 * w + 3]);
    }
}

/// Expands a 32-byte value to 64 bytes: the value unchanged, followed by its
/// eight little-endian 32-bit words in reverse order, each complemented.
pub fn bits256_expand_to_bits512(bits256: &[u8]) -> (r: [u8; 64])
    requires
        bits256@.len() == 32,
    ensures
        r@ == expand_spec(bits256@),
        r@.take(32) == bits256@,
        forall|i: int| 0 <= i < 8 ==> #[trigger] le_word(r@, 8 + i) == 0xffff_ffff - le_word(bits256@, 7 - i),
{
    let mut buffer = [0u8; 64];
    let mut k: usize = 0;
    while k < 32
        invariant
            bits256@.len() == 32,
            k <= 32,
            forall|j: int| 0 <= j < k ==> buffer@[j] == bits256@[j],
        decreases 32 - k,
    {
        buffer[k] = bits256[k];
        k = k + 1;
    }
    let mut k: usize = 0;
    while k < 32
        invariant
            bits256@.len() == 32,
            k <= 32,
            forall|j: int| 0 <= j < 32 ==> buffer@[j] == bits256@[j],
            forall|j: int| 0 <= j < k ==> #[trigger] buffer@[32 + j] == (255 - bits256@[4 * (7 - j / 4) + j % 4]) as u8,
        decreases 32 - k,
    {
        let src: usize = 4 * (7 - k / 4) + k % 4;
        buffer[32 + k] = 255 - bits256[src];
        k = k + 1;
    }
    assert forall|j: int| 32 <= j < 64 implies buffer@[j] == expand_spec(bits256@)[j] by {
        assert(buffer@[32 + (j - 32)] == (255 - bits256@[4 * (7 - (j - 32) / 4) + (j - 32) % 4]) as u8);
    }
    assert(buffer@ =~= expand_spec(bits256@));
    proof {
        lemma_expand_words(bits256@);
    }
    buffer
}

} // verus!
