use porep_label::utils::bits256_expand_to_bits512;

#[test]
fn test_bits256_expand_to_bits512() {
    let inb = [0u8; 32];
    let out = bits256_expand_to_bits512(&inb[..]);
    println!("{:?}", hex::encode(&out[..]));
    assert_eq!(&out[..32], &[0u8; 32][..]);
    assert_eq!(&out[32..], &[0xffu8; 32][..]);
}

#[test]
fn expansion_reverses_and_complements_words() {
    let inb: Vec<u8> = (0..32u8).collect();
    let out = bits256_expand_to_bits512(&inb[..]);
    assert_eq!(&out[..32], &inb[..]);
    for i in 0..8 {
        let src = u32::from_le_bytes([inb[28 - 4 * i], inb[29 - 4 * i], inb[30 - 4 * i], inb[31 - 4 * i]]);
        let dst = u32::from_le_bytes([out[32 + 4 * i], out[33 + 4 * i], out[34 + 4 * i], out[35 + 4 * i]]);
        assert_eq!(dst, !src);
    }
    assert_eq!(&out[32..36], &[!28u8, !29u8, !30u8, !31u8][..]);
    assert_eq!(&out[60..64], &[!0u8, !1u8, !2u8, !3u8][..]);
}

#[test]
fn expansion_is_deterministic() {
    let inb = [0x5au8; 32];
    assert_eq!(&bits256_expand_to_bits512(&inb[..])[..], &bits256_expand_to_bits512(&inb[..])[..]);
    assert_eq!(&bits256_expand_to_bits512(&inb[..])[32..], &[0xa5u8; 32][..]);
}
