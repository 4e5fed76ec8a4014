use porep_label::create_label::{create_label, create_label_exp, NODE_SIZE};
use porep_label::encoding_proof::EncodingProof;
use porep_label::labeling_proof::LabelingProof;
use porep_label::sha512::Sha512;
use porep_label::utils::bits256_expand_to_bits512;
use sha2::{Digest, Sha512 as Sha2Sha512};

fn replica_id() -> [u8; 32] {
    let mut r = [0u8; 32];
    for (i, b) in r.iter_mut().enumerate() {
        *b = (i as u8).wrapping_mul(37).wrapping_add(11);
    }
    r[31] &= 0x3f;
    r
}

/// A graph stand-in: absorbs each parent's label, expanded to 64 bytes, in order.
fn absorb_parents(parents: &[[u8; 32]], mut hasher: Sha512) -> [u8; 64] {
    let expanded: Vec<[u8; 64]> = parents.iter().map(|p| bits256_expand_to_bits512(&p[..])).collect();
    let pairs = expanded.len() / 2;
    for k in 0..pairs {
        hasher.input(&[&expanded[2 * k][..], &expanded[2 * k + 1][..]]);
    }
    if expanded.len() % 2 == 1 {
        hasher.finish_with(&expanded[expanded.len() - 1][..])
    } else {
        hasher.finish()
    }
}

fn parents_of(labels: &[u8], nodes: &[usize]) -> Vec<[u8; 32]> {
    nodes
        .iter()
        .map(|&n| {
            let mut p = [0u8; 32];
            p.copy_from_slice(&labels[n * NODE_SIZE..(n + 1) * NODE_SIZE]);
            p
        })
        .collect()
}

fn label_at(labels: &[u8], node: usize) -> [u8; 32] {
    parents_of(labels, &[node])[0]
}

#[test]
fn node_zero_label_is_masked_sha512_of_prefix() {
    let rid = replica_id();
    let mut labels = vec![0u8; 4 * NODE_SIZE];
    let r: Result<(), ()> = create_label(|_, _, _| panic!("node 0 has no parents"), &rid, &mut labels, 3, 0);
    assert!(r.is_ok());
    let mut msg = bits256_expand_to_bits512(&rid[..]).to_vec();
    let mut header = [0u8; 64];
    header[..4].copy_from_slice(&3u32.to_be_bytes());
    msg.extend_from_slice(&header);
    let d = Sha2Sha512::digest(&msg);
    let mut expected = [0u8; 32];
    expected.copy_from_slice(&d[..32]);
    expected[31] &= 0x3f;
    assert_eq!(label_at(&labels, 0), expected);
    assert_eq!(&labels[NODE_SIZE..], &[0u8; 3 * NODE_SIZE][..]);
}

#[test]
fn node_zero_label_ignores_graph_and_other_labels() {
    let rid = replica_id();
    let mut a = vec![0u8; 2 * NODE_SIZE];
    let mut b = vec![0xeeu8; 2 * NODE_SIZE];
    create_label::<(), _>(|_, _, h| Ok(h.finish()), &rid, &mut a, 1, 0).unwrap();
    create_label::<(), _>(|_, _, _| Ok([7u8; 64]), &rid, &mut b, 1, 0).unwrap();
    assert_eq!(label_at(&a, 0), label_at(&b, 0));
    let mut c = vec![0u8; 2 * NODE_SIZE];
    create_label::<(), _>(|_, _, h| Ok(h.finish()), &rid, &mut c, 2, 0).unwrap();
    assert_ne!(label_at(&a, 0), label_at(&c, 0));
}

#[test]
fn labels_have_top_two_bits_clear() {
    let rid = replica_id();
    let mut labels = vec![0u8; 16 * NODE_SIZE];
    for node in 0..16usize {
        let r: Result<(), ()> = create_label(
            |n, l, h| {
                let n = n as usize;
                let ps: Vec<usize> = (0..n).collect();
                Ok(absorb_parents(&parents_of(l, &ps), h))
            },
            &rid,
            &mut labels,
            1,
            node,
        );
        assert!(r.is_ok());
        assert_eq!(labels[node * NODE_SIZE + 31] & 0b1100_0000, 0);
    }
}

#[test]
fn labeling_proof_round_trip() {
    let rid = replica_id();
    let mut labels = vec![0u8; 8 * NODE_SIZE];
    for node in 0..8usize {
        let ps: Vec<usize> = (0..node).collect();
        create_label::<(), _>(|_, l, h| Ok(absorb_parents(&parents_of(l, &ps), h)), &rid, &mut labels, 2, node)
            .unwrap();
        let parents = parents_of(&labels, &ps);
        let label = label_at(&labels, node);
        let proof = LabelingProof::new(2, node as u64, parents.clone());
        assert!(proof.verify(&rid, &label));

        let mut bad_rid = rid;
        bad_rid[5] ^= 1;
        assert!(!proof.verify(&bad_rid, &label));
        assert!(!LabelingProof::new(3, node as u64, parents.clone()).verify(&rid, &label));
        assert!(!LabelingProof::new(2, node as u64 + 1, parents.clone()).verify(&rid, &label));
        if !parents.is_empty() {
            let mut bad = parents.clone();
            bad[0][0] ^= 0x80;
            assert!(!LabelingProof::new(2, node as u64, bad).verify(&rid, &label));
        }
        let mut bad_label = label;
        bad_label[0] ^= 1;
        assert!(!proof.verify(&rid, &bad_label));
    }
}

#[test]
fn graph_error_is_returned_and_labels_untouched() {
    let rid = replica_id();
    let mut labels = vec![0x11u8; 3 * NODE_SIZE];
    let r = create_label(|_, _, _| Err("missing parent"), &rid, &mut labels, 0, 2);
    assert_eq!(r, Err("missing parent"));
    assert_eq!(labels, vec![0x11u8; 3 * NODE_SIZE]);
    let r = create_label_exp(|_, _, _, _| Err(5u32), &rid, &[], &mut labels, 0, 1);
    assert_eq!(r, Err(5u32));
    assert_eq!(labels, vec![0x11u8; 3 * NODE_SIZE]);
}

#[test]
fn graph_receives_node_and_layer_labels() {
    let rid = replica_id();
    let mut labels = vec![0u8; 3 * NODE_SIZE];
    labels[NODE_SIZE] = 9;
    let r: Result<(), ()> = create_label(
        |n, l, h| {
            assert_eq!(n, 2);
            assert_eq!(l[NODE_SIZE], 9);
            Ok(h.finish())
        },
        &rid,
        &mut labels,
        0,
        2,
    );
    assert!(r.is_ok());
    assert_eq!(labels[NODE_SIZE], 9);
    assert_eq!(&labels[..NODE_SIZE], &[0u8; NODE_SIZE][..]);
}

#[test]
fn create_label_exp_uses_expander_data() {
    let rid = replica_id();
    let mut labels = vec![0u8; 4 * NODE_SIZE];
    create_label::<(), _>(|_, _, h| Ok(h.finish()), &rid, &mut labels, 1, 0).unwrap();
    let exp: Vec<[u8; 32]> = vec![[3u8; 32], [4u8; 32], [5u8; 32]];
    let exp_bytes: Vec<u8> = exp.iter().flat_map(|p| p.iter().copied()).collect();
    let r: Result<(), ()> = create_label_exp(
        |_, l, x, h| {
            let mut ps = parents_of(l, &[0]);
            for c in x.chunks(32) {
                let mut p = [0u8; 32];
                p.copy_from_slice(c);
                ps.push(p);
            }
            Ok(absorb_parents(&ps, h))
        },
        &rid,
        &exp_bytes,
        &mut labels,
        1,
        1,
    );
    assert!(r.is_ok());
    let mut parents = parents_of(&labels, &[0]);
    parents.extend_from_slice(&exp);
    let proof = LabelingProof::new(1, 1, parents);
    assert!(proof.verify(&rid, &label_at(&labels, 1)));
    assert_eq!(labels[NODE_SIZE + 31] & 0xc0, 0);
}

fn xor_encode(key: [u8; 32], value: [u8; 32]) -> [u8; 32] {
    let mut r = [0u8; 32];
    for i in 0..32 {
        r[i] = key[i] ^ value[i];
    }
    r
}

#[test]
fn encoding_proof_verifies_encoded_node() {
    let rid = replica_id();
    let mut labels = vec![0u8; 2 * NODE_SIZE];
    create_label::<(), _>(|_, _, h| Ok(h.finish()), &rid, &mut labels, 1, 0).unwrap();
    create_label::<(), _>(|_, l, h| Ok(absorb_parents(&parents_of(l, &[0]), h)), &rid, &mut labels, 1, 1)
        .unwrap();
    let key = label_at(&labels, 1);
    let decoded = [0x2au8; 32];
    let encoded = xor_encode(key, decoded);
    let proof = EncodingProof::new(1, 1, parents_of(&labels, &[0]));
    assert!(proof.verify(&rid, &encoded, &decoded, xor_encode));
    assert!(!proof.verify(&rid, &decoded, &decoded, xor_encode));
    assert!(!EncodingProof::new(1, 0, parents_of(&labels, &[0])).verify(&rid, &encoded, &decoded, xor_encode));
}
