//! The mathematical model of SHA-512 as FIPS 180-4 builds it from its
//! compression function: the chaining value is folded over the padded
//! message, one 128-byte block at a time, and written out big-endian.

use vstd::prelude::*;

verus! {

/// The result of the SHA-512 compression function on a chaining value and
/// one 128-byte message block.
pub uninterp spec fn compress_of(state: Seq<u64>, block: Seq<u8>) -> Seq<u64>;

/// The SHA-512 initial chaining value.
pub open spec fn sha512_iv() -> Seq<u64> {
    seq![
        0x6a09e667f3bcc908u64, 0xbb67ae8584caa73bu64, 0x3c6ef372fe94f82bu64, 0xa54ff53a5f1d36f1u64,
        0x510e527fade682d1u64, 0x9b05688c2b3e6c1fu64, 0x1f83d9abfb41bd6bu64, 0x5be0cd19137e2179u64,
    ]
}

/// 2^64.
pub open spec fn word_base() -> int {
    0x1_0000_0000_0000_0000
}

/// The number of bits that a 128-bit length counter can hold.
pub open spec fn bit_len_limit() -> int {
    word_base() * word_base()
}

/// Folds the compression function over every whole 128-byte block of `data`.
pub open spec fn compress_all(state: Seq<u64>, data: Seq<u8>) -> Seq<u64>
    decreases data.len(),
{
    if data.len() < 128 {
        state
    } else {
        compress_all(compress_of(state, data.take(128)), data.skip(128))
    }
}

/// Byte `j` (0 = most significant) of the big-endian form of `w`.
pub open spec fn be_byte(w: u64, j: int) -> u8 {
    ((w >> ((56 - 8 * j) as u64)) & 0xff) as u8
}

/// The eight big-endian bytes of `w`.
pub open spec fn be_u64(w: u64) -> Seq<u8> {
    Seq::new(8, |j: int| be_byte(w, j))
}

/// The sixteen big-endian bytes of a 128-bit quantity.
pub open spec fn be_u128(x: int) -> Seq<u8> {
    be_u64((x / word_base()) as u64) + be_u64((x % word_base()) as u64)
}

/// The eight words of a chaining value `w`, each written big-endian, one
/// after another: 64 bytes.
pub open spec fn words_be(w: Seq<u64>) -> Seq<u8> {
    Seq::new(64, |i: int| be_byte(w[i / 8], i % 8))
}

/// `n` zero bytes.
pub open spec fn zeros(n: nat) -> Seq<u8> {
    Seq::new(n, |i: int| 0u8)
}

/// The padding SHA-512 appends to a message of `n` bytes: a single one bit,
/// zeros up to 16 bytes short of a block boundary, then the length in bits
/// as a 128-bit big-endian number.
pub open spec fn sha512_padding(n: nat) -> Seq<u8> {
    seq![0x80u8] + zeros(((239 - (n % 128) as int) % 128) as nat) + be_u128((8 * n) as int % bit_len_limit())
}

/// SHA-512 of `m`.
pub open spec fn sha512_spec(m: Seq<u8>) -> Seq<u8> {
    words_be(compress_all(sha512_iv(), m + sha512_padding(m.len())))
}

/// The final block absorbed by a finish on a stream of whole blocks that
/// holds `bits` bits.
pub open spec fn finish_block(bits: int) -> Seq<u8> {
    seq![0x80u8] + zeros(111) + be_u128(bits)
}

/// The 64 bytes that follow a caller's last half block when a stream ends
/// with `bits` bits in all.
pub open spec fn finish_with_tail(bits: int) -> Seq<u8> {
    seq![0x80u8] + zeros(47) + be_u128(bits)
}

/// Folding over a whole number of blocks and then over more data is
/// folding over the two together.
pub proof fn lemma_compress_all_append(state: Seq<u64>, a: Seq<u8>, b: Seq<u8>)
    requires
        a.len() % 128 == 0,
    ensures
        compress_all(state, a + b) == compress_all(compress_all(state, a), b),
    decreases a.len(),
{
    if a.len() == 0 {
        assert(a + b =~= b);
    } else {
        let ab = a + b;
        assert(ab.take(128) =~= a.take(128));
        assert(ab.skip(128) =~= a.skip(128) + b);
        lemma_compress_all_append(compress_of(state, a.take(128)), a.skip(128), b);
    }
}

/// Folding over exactly one block is one compression.
pub proof fn lemma_compress_all_one_block(state: Seq<u64>, block: Seq<u8>)
    requires
        block.len() == 128,
    ensures
        compress_all(state, block) == compress_of(state, block),
{
    assert(block.take(128) =~= block);
    assert(block.skip(128).len() == 0);
    assert(compress_all(compress_of(state, block), block.skip(128)) == compress_of(state, block));
}

/// Folding the compression function over a message of whole blocks and
/// then compressing the final block of a finish gives SHA-512 of the message.
pub proof fn lemma_finish_digest(m: Seq<u8>)
    requires
        m.len() % 128 == 0,
        8 * m.len() < bit_len_limit(),
    ensures
        words_be(compress_of(compress_all(sha512_iv(), m), finish_block((8 * m.len()) as int))) == sha512_spec(m),
{
    let n = m.len();
    assert(sha512_padding(n) =~= finish_block((8 * n) as int));
    lemma_compress_all_append(sha512_iv(), m, finish_block((8 * n) as int));
    lemma_compress_all_one_block(compress_all(sha512_iv(), m), finish_block((8 * n) as int));
}

/// Folding the compression function over a message of whole blocks and
/// then compressing a last half block `last` with the tail of a finish
/// gives SHA-512 of the message followed by `last`.
pub proof fn lemma_finish_with_digest(m: Seq<u8>, last: Seq<u8>)
    requires
        m.len() % 128 == 0,
        last.len() == 64,
        8 * m.len() + 512 < bit_len_limit(),
    ensures
        words_be(compress_of(compress_all(sha512_iv(), m), last + finish_with_tail((8 * m.len() + 512) as int)))
            == sha512_spec(m + last),
{
    let n = m.len() + 64;
    let tail = finish_with_tail((8 * m.len() + 512) as int);
    assert((m + last).len() == n);
    assert(sha512_padding(n) =~= tail);
    assert((m + last) + tail =~= m + (last + tail));
    lemma_compress_all_append(sha512_iv(), m, last + tail);
    lemma_compress_all_one_block(compress_all(sha512_iv(), m), last + tail);
}

/// The length of a concatenation of 64-byte blocks.
pub proof fn lemma_flatten_len(blocks: Seq<Seq<u8>>)
    requires
        forall|i: int| 0 <= i < blocks.len() ==> (#[trigger] blocks[i]).len() == 64,
    ensures
        blocks.flatten().len() == 64 * blocks.len(),
    decreases blocks.len(),
{
    if blocks.len() > 0 {
        let rest = blocks.drop_last();
        assert(blocks =~= rest.push(blocks.last()));
        rest.lemma_flatten_push(blocks.last());
        lemma_flatten_len(rest);
    }
}

} // verus!
