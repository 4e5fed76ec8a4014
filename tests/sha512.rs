use porep_label::sha512::Sha512;
use rand::{RngCore, SeedableRng};
use rand_xorshift::XorShiftRng;
use sha2::{Digest, Sha512 as Sha2Sha512};

fn fuzz(n: usize) {
    let rng = &mut XorShiftRng::from_seed([
        0x59, 0x62, 0xbe, 0x5d, 0x76, 0x3d, 0x31, 0x8d, 0x17, 0xdb, 0x37, 0x32, 0x54, 0x06,
        0xbc, 0xe5,
    ]);
    for k in 1..n {
        for _ in 0..100 {
            let mut input = vec![0u8; 128 * k];
            rng.fill_bytes(&mut input);
            let chunked = input.chunks(64).collect::<Vec<_>>();
            assert_eq!(&Sha512::digest(&chunked)[..], &Sha2Sha512::digest(&input)[..])
        }
    }

    for k in (1..n).step_by(2) {
        for _ in 0..100 {
            let mut input = vec![0u8; 64 * k];
            rng.fill_bytes(&mut input);
            let mut hasher = Sha512::new();
            for chunk in input.chunks(128) {
                if chunk.len() == 128 {
                    hasher.input(&[&chunk[..64], &chunk[64..]]);
                }
            }
            assert_eq!(input.len() % 128, 64);
            let hash = hasher.finish_with(&input[input.len() - 64..]);

            assert_eq!(
                &hash[..],
                &Sha2Sha512::digest(&input)[..],
                "input: {:?}",
                &input
            );
        }
    }
}

#[test]
fn test_fuzz_simple_sha512() {
    fuzz(10);
}

#[test]
fn digest_of_no_blocks_is_sha512_of_empty() {
    let blocks: Vec<&[u8]> = Vec::new();
    let d = Sha512::digest(&blocks);
    assert_eq!(
        hex::encode(&d[..]),
        "cf83e1357eefb8bdf1542850d66d8007d620e4050b5715dc83f4a921d36ce9ce\
         47d0d13c5d85f2b0ff8318d2877eec2f63b931bd47417a81a538327af927da3e"
    );
}

#[test]
fn finish_with_one_half_block() {
    let input = [0x61u8; 64];
    let d = Sha512::new().finish_with(&input[..]);
    assert_eq!(&d[..], &Sha2Sha512::digest(&input[..])[..]);
}

#[test]
fn streaming_in_several_calls_matches_one_call() {
    let input: Vec<u8> = (0..512u32).map(|i| (i * 7 + 3) as u8).collect();
    let chunked = input.chunks(64).collect::<Vec<_>>();
    let mut hasher = Sha512::new();
    hasher.input(&chunked[..2]);
    hasher.input(&chunked[2..6]);
    hasher.input(&chunked[6..]);
    assert_eq!(&hasher.finish()[..], &Sha512::digest(&chunked)[..]);
    assert_eq!(&Sha512::digest(&chunked)[..], &Sha2Sha512::digest(&input)[..]);
}

#[test]
fn finish_differs_from_state_words() {
    // The digest of one zero block pair is not the initial value written out.
    let zero = [0u8; 64];
    let d = Sha512::digest(&[&zero[..], &zero[..]]);
    assert_ne!(&d[..8], &[0x6a, 0x09, 0xe6, 0x67, 0xf3, 0xbc, 0xc9, 0x08][..]);
    assert_eq!(&d[..], &Sha2Sha512::digest(&[0u8; 128][..])[..]);
}
