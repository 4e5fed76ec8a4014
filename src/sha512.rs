//! A streaming SHA-512 state that absorbs pairs of 64-byte blocks and
//! finishes with a fixed padding schedule.

use vstd::prelude::*;
use crate::hash_model::{
    be_byte, be_u128, be_u64, bit_len_limit, compress_all, compress_of, finish_block, finish_with_tail,
    lemma_compress_all_append, lemma_compress_all_one_block, lemma_finish_digest, lemma_finish_with_digest,
    lemma_flatten_len,
    sha512_iv, sha512_spec, word_base, words_be,
};

verus! {

/// Relies on sha2::compress512: one call with one 128-byte block runs the
/// SHA-512 compression function once, updating the chaining value in place.
#[verifier::external_body]
fn compress_block(state: &mut [u64; 8], block: &[u8; 128])
    ensures
        final(state)@ == compress_of(old(state)@, block@),
{
    let b = sha2::digest::generic_array::GenericArray::<u8, sha2::digest::typenum::U128>::clone_from_slice(&block[..]);
    sha2::compress512(state, &[b]);
}

/// Relies on byteorder's big-endian write_u64_into: each word becomes its
/// eight big-endian bytes, in order.
#[verifier::external_body]
fn write_words_be(words: &[u64; 8]) -> (r: [u8; 64])
    ensures
        r@ == words_be(words@),
{
    let mut out = [0u8; 64];
    <byteorder::BigEndian as byteorder::ByteOrder>::write_u64_into(&words[..], &mut out);
    out
}

/// The blocks of a slice of byte slices, as sequences.
pub open spec fn block_seqs(blocks: &[&[u8]]) -> Seq<Seq<u8>> {
    Seq::new(blocks@.len(), |i: int| blocks@[i]@)
}

/// Blocks that `Sha512::input` accepts: an even number of 64-byte blocks.
pub open spec fn valid_blocks(blocks: Seq<Seq<u8>>) -> bool {
    &&& blocks.len() % 2 == 0
    &&& forall|i: int| 0 <= i < blocks.len() ==> (#[trigger] blocks[i]).len() == 64
}

/// A SHA-512 chaining value together with the number of bits absorbed so
/// far, kept as a 128-bit counter in two words.
#[derive(Clone)]
pub struct Sha512 {
    len_hi: u64,
    len_lo: u64,
    state: [u64; 8],
}

impl Sha512 {
    /// The high word of the bit counter.
    pub closed spec fn len_hi(&self) -> u64 {
        self.len_hi
    }

    /// The low word of the bit counter.
    pub closed spec fn len_lo(&self) -> u64 {
        self.len_lo
    }

    /// The number of bits absorbed so far.
    pub open spec fn bit_len(&self) -> int {
        self.len_hi() * word_base() + self.len_lo()
    }

    /// The chaining value.
    pub closed spec fn chain(&self) -> Seq<u64> {
        self.state@
    }

    /// This state is the result of absorbing the message `m`, a whole
    /// number of 128-byte blocks, from the initial value.
    pub open spec fn absorbed(&self, m: Seq<u8>) -> bool {
        &&& m.len() % 128 == 0
        &&& self.chain() == compress_all(sha512_iv(), m)
        &&& self.bit_len() == 8 * m.len()
    }

    /// The digest that `finish` returns on this state.
    pub open spec fn finish_spec(&self) -> Seq<u8> {
        words_be(compress_of(self.chain(), finish_block(self.bit_len())))
    }

    /// The digest that `finish_with` returns on this state and last half block.
    pub open spec fn finish_with_spec(&self, block0: Seq<u8>) -> Seq<u8> {
        words_be(compress_of(self.chain(), block0 + finish_with_tail(self.bit_len() + 512)))
    }
}

impl Default for Sha512 {
    fn default() -> (r: Self)
        ensures
            r.chain() == sha512_iv(),
            r.len_hi() == 0,
            r.len_lo() == 0,
    {
        let r = Sha512 {
            len_hi: 0,
            len_lo: 0,
            state: [
                0x6a09e667f3bcc908, 0xbb67ae8584caa73b, 0x3c6ef372fe94f82b, 0xa54ff53a5f1d36f1,
                0x510e527fade682d1, 0x9b05688c2b3e6c1f, 0x1f83d9abfb41bd6b, 0x5be0cd19137e2179,
            ],
        };
        assert(r.state@ =~= sha512_iv());
        r
    }
}

/// Writes `src` into `dst` from byte `off` on.
fn copy_into(dst: &mut [u8; 128], off: usize, src: &[u8])
    requires
        off + src@.len() <= 128,
    ensures
        final(dst)@ == old(dst)@.take(off as int) + src@ + old(dst)@.skip(off + src@.len()),
{
    let ghost d0 = dst@;
    let mut j: usize = 0;
    while j < src.len()
        invariant
            off + src@.len() <= 128,
            j <= src@.len(),
            dst@.len() == 128,
            forall|k: int| 0 <= k < off ==> dst@[k] == d0[k],
            forall|k: int| 0 <= k < j ==> dst@[off + k] == src@[k],
            forall|k: int| off + j <= k < 128 ==> dst@[k] == d0[k],
        decreases src@.len() - j,
    {
        dst[off + j] = src[j];
        j = j + 1;
    }
    assert(dst@ =~= d0.take(off as int) + src@ + d0.skip(off + src@.len()));
}

/// Writes the big-endian bytes of `w` at bytes `off .. off + 8` of `dst`.
fn write_be_u64(dst: &mut [u8; 64], off: usize, w: u64)
    requires
        off + 8 <= 64,
    ensures
        final(dst)@ == old(dst)@.take(off as int) + be_u64(w) + old(dst)@.skip(off + 8),
{
    let ghost d0 = dst@;
    let mut j: usize = 0;
    while j < 8
        invariant
            off + 8 <= 64,
            j <= 8,
            dst@.len() == 64,
            forall|k: int| 0 <= k < off ==> dst@[k] == d0[k],
            forall|k: int| 0 <= k < j ==> dst@[off + k] == be_byte(w, k),
            forall|k: int| off + j <= k < 64 ==> dst@[k] == d0[k],
        decreases 8 - j,
    {
        let sh: u64 = 56 - 8 * (j as u64);
        dst[off + j] = ((w >> sh) & 0xff) as u8;
        j = j + 1;
    }
    assert(dst@ =~= d0.take(off as int) + be_u64(w) + d0.skip(off + 8));
}

impl Sha512 {
    /// A fresh state: the SHA-512 initial chaining value, nothing absorbed.
    pub fn new() -> (r: Self)
        ensures
            r.chain() == sha512_iv(),
            r.len_hi() == 0,
            r.len_lo() == 0,
            r.bit_len() == 0,
            r.absorbed(Seq::empty()),
    {
        let r = Sha512::default();
        assert(compress_all(sha512_iv(), Seq::<u8>::empty()) == sha512_iv());
        r
    }

    /// Absorbs an even number of 64-byte blocks, two at a time as one
    /// 128-byte compression block. The bit counter grows by 512 per block,
    /// carrying from the low word into the high word.
    pub fn input(&mut self, blocks: &[&[u8]])
        requires
            valid_blocks(block_seqs(blocks)),
            old(self).bit_len() + 512 * blocks@.len() < bit_len_limit(),
        ensures
            final(self).chain() == compress_all(old(self).chain(), block_seqs(blocks).flatten()),
            forall|m: Seq<u8>| #[trigger] old(self).absorbed(m) ==> final(self).absorbed(m + block_seqs(blocks).flatten()),
            final(self).bit_len() == old(self).bit_len() + 512 * blocks@.len(),
            final(self).len_lo() == (old(self).len_lo() + 512 * blocks@.len()) % word_base(),
            final(self).len_hi() == old(self).len_hi() + (old(self).len_lo() + 512 * blocks@.len()) / word_base(),
    {
        let ghost bs = block_seqs(blocks);
        let total: u128 = (self.len_hi as u128) * 0x1_0000_0000_0000_0000u128 + (self.len_lo as u128)
            + (blocks.len() as u128) * 512;
        let lo: u64 = (total % 0x1_0000_0000_0000_0000u128) as u64;
        let hi: u64 = (total / 0x1_0000_0000_0000_0000u128) as u64;
        proof {
            let oh = old(self).len_hi() as int;
            let ol = old(self).len_lo() as int;
            let n = blocks@.len() as int;
            assert(lo as int == (ol + 512 * n) % 0x1_0000_0000_0000_0000int
                && hi as int == oh + (ol + 512 * n) / 0x1_0000_0000_0000_0000int) by (nonlinear_arith)
                requires
                    total as int == oh * 0x1_0000_0000_0000_0000int + ol + 512 * n,
                    lo as int == total as int % 0x1_0000_0000_0000_0000int,
                    hi as int == total as int / 0x1_0000_0000_0000_0000int,
                    0 <= ol < 0x1_0000_0000_0000_0000int;
        }
        self.len_hi = hi;
        self.len_lo = lo;

        let ghost s0 = self.state@;
        let mut buf = [0u8; 128];
        let mut k: usize = 0;
        while k < blocks.len() / 2
            invariant
                bs == block_seqs(blocks),
                valid_blocks(bs),
                k <= blocks@.len() / 2,
                self.state@ == compress_all(s0, bs.take(2 * k).flatten()),
                self.len_hi == hi,
                self.len_lo == lo,
            decreases blocks@.len() / 2 - k,
        {
            let ghost prev = bs.take(2 * k);
            assert(bs[2 * k] == blocks@[2 * k]@ && bs[2 * k + 1] == blocks@[2 * k + 1]@);
            copy_into(&mut buf, 0, blocks[2 * k]);
            copy_into(&mut buf, 64, blocks[2 * k + 1]);
            let ghost b = bs[2 * k] + bs[2 * k + 1];
            assert(buf@ =~= b);
            compress_block(&mut self.state, &buf);
            proof {
                assert(bs.take(2 * k + 2) =~= prev.push(bs[2 * k]).push(bs[2 * k + 1]));
                prev.lemma_flatten_push(bs[2 * k]);
                prev.push(bs[2 * k]).lemma_flatten_push(bs[2 * k + 1]);
                assert(bs.take(2 * k + 2).flatten() =~= prev.flatten() + b);
                assert forall|i: int| 0 <= i < prev.len() implies (#[trigger] prev[i]).len() == 64 by {
                    assert(prev[i] == bs[i]);
                }
                lemma_flatten_len(prev);
                assert(prev.flatten().len() % 128 == 0) by (nonlinear_arith)
                    requires prev.flatten().len() == 64 * prev.len(), prev.len() == 2 * k;
                lemma_compress_all_append(s0, prev.flatten(), b);
                lemma_compress_all_one_block(compress_all(s0, prev.flatten()), b);
            }
            k = k + 1;
        }
        assert(bs.take(2 * k) =~= bs);
        proof {
            lemma_flatten_len(bs);
            assert forall|m: Seq<u8>| #[trigger] old(self).absorbed(m) implies self.absorbed(m + bs.flatten()) by {
                lemma_compress_all_append(sha512_iv(), m, bs.flatten());
                assert((m + bs.flatten()).len() % 128 == 0) by (nonlinear_arith)
                    requires (m + bs.flatten()).len() == m.len() + 64 * bs.len(), m.len() % 128 == 0, bs.len() % 2 == 0;
            }
        }
    }

    /// Finishes a stream of whole blocks: absorbs a block of a single one
    /// bit and zeros followed by the 128-bit big-endian bit count, and
    /// returns the chaining value as 64 big-endian bytes.
    pub fn finish(self) -> (r: [u8; 64])
        ensures
            r@ == self.finish_spec(),
            forall|m: Seq<u8>| #[trigger] self.absorbed(m) ==> r@ == sha512_spec(m),
    {
        let mut this = self;
        let mut block0 = [0u8; 64];
        let mut block1 = [0u8; 64];
        let hi = this.len_hi;
        let lo = this.len_lo;
        block0[0] = 0x80;
        write_be_u64(&mut block1, 48, hi);
        write_be_u64(&mut block1, 56, lo);
        let mut buf = [0u8; 128];
        copy_into(&mut buf, 0, &block0);
        copy_into(&mut buf, 64, &block1);
        proof {
            lemma_be_u128_words(hi, lo);
            assert(buf@ =~= finish_block(self.bit_len()));
            assert forall|m: Seq<u8>| #[trigger] self.absorbed(m) implies self.finish_spec() == sha512_spec(m) by {
                self.lemma_absorbed_finish(m);
            }
        }
        compress_block(&mut this.state, &buf);
        write_words_be(&this.state)
    }

    /// Finishes a stream whose last 64 bytes are `block0`, not yet absorbed:
    /// absorbs `block0` together with a half block of a single one bit,
    /// zeros and the 128-bit big-endian bit count (which counts `block0`),
    /// and returns the chaining value as 64 big-endian bytes.
    pub fn finish_with(self, block0: &[u8]) -> (r: [u8; 64])
        requires
            block0@.len() == 64,
            self.bit_len() + 512 < bit_len_limit(),
        ensures
            r@ == self.finish_with_spec(block0@),
            forall|m: Seq<u8>| #[trigger] self.absorbed(m) ==> r@ == sha512_spec(m + block0@),
    {
        let mut this = self;
        let mut block1 = [0u8; 64];
        let total: u128 = (this.len_hi as u128) * 0x1_0000_0000_0000_0000u128 + (this.len_lo as u128) + 512;
        let lo: u64 = (total % 0x1_0000_0000_0000_0000u128) as u64;
        let hi: u64 = (total / 0x1_0000_0000_0000_0000u128) as u64;
        block1[0] = 0x80;
        write_be_u64(&mut block1, 48, hi);
        write_be_u64(&mut block1, 56, lo);
        let mut buf = [0u8; 128];
        copy_into(&mut buf, 0, block0);
        copy_into(&mut buf, 64, &block1);
        proof {
            assert(total == hi * word_base() + lo);
            lemma_be_u128_words(hi, lo);
            assert(buf@ =~= block0@ + finish_with_tail(self.bit_len() + 512));
            assert forall|m: Seq<u8>| #[trigger] self.absorbed(m) implies self.finish_with_spec(block0@) == sha512_spec(m + block0@) by {
                self.lemma_absorbed_finish_with(m, block0@);
            }
        }
        compress_block(&mut this.state, &buf);
        write_words_be(&this.state)
    }

    /// SHA-512 of the concatenation of an even number of 64-byte blocks.
    pub fn digest(blocks: &[&[u8]]) -> (r: [u8; 64])
        requires
            valid_blocks(block_seqs(blocks)),
        ensures
            r@ == sha512_spec(block_seqs(blocks).flatten()),
    {
        let n: usize = blocks.len();
        assert(512 * blocks@.len() < bit_len_limit());
        let mut sha = Sha512::new();
        sha.input(blocks);
        assert(Seq::<u8>::empty() + block_seqs(blocks).flatten() =~= block_seqs(blocks).flatten());
        sha.finish()
    }

    /// On a state that has absorbed `m`, `finish` gives SHA-512 of `m`.
    pub proof fn lemma_absorbed_finish(&self, m: Seq<u8>)
        requires
            self.absorbed(m),
        ensures
            self.finish_spec() == sha512_spec(m),
    {
        lemma_finish_digest(m);
    }

    /// On a state that has absorbed `m`, `finish_with(last)` gives SHA-512 of
    /// `m` followed by `last`.
    pub proof fn lemma_absorbed_finish_with(&self, m: Seq<u8>, last: Seq<u8>)
        requires
            self.absorbed(m),
            last.len() == 64,
            self.bit_len() + 512 < bit_len_limit(),
        ensures
            self.finish_with_spec(last) == sha512_spec(m + last),
    {
        lemma_finish_with_digest(m, last);
    }
}

/// The two words of a 128-bit number, written big-endian one after the
/// other, are its sixteen big-endian bytes.
proof fn lemma_be_u128_words(hi: u64, lo: u64)
    ensures
        be_u128(hi * word_base() + lo) == be_u64(hi) + be_u64(lo),
{
    let x = hi * word_base() + lo;
    assert(x / word_base() == hi && x % word_base() == lo) by (nonlinear_arith)
        requires x == hi * 0x1_0000_0000_0000_0000int + lo, 0 <= lo < 0x1_0000_0000_0000_0000int, hi >= 0;
}

} // verus!
