//! Label derivation: the label of one node in one layer, hashed from the
//! expanded replica identifier, a header naming the layer and the node, and
//! the labels of the node's parents, then masked into the scalar field.

use vstd::prelude::*;
use crate::hash_model::{be_u64, sha512_spec, zeros};
use crate::sha512::{block_seqs, Sha512};
use crate::utils::{bits256_expand_to_bits512, expand_spec};

verus! {

/// The size of one label, in bytes.
pub const NODE_SIZE: usize = 32;

/// The four big-endian bytes of `x`.
pub open spec fn be_u32(x: u32) -> Seq<u8> {
    Seq::new(4, |j: int| ((x >> ((24 - 8 * j) as u32)) & 0xff) as u8)
}

/// The header block of a label: the layer index and the node index,
/// big-endian, then zeros up to 64 bytes.
pub open spec fn header_spec(layer_index: u32, node: u64) -> Seq<u8> {
    be_u32(layer_index) + be_u64(node) + zeros(52)
}

/// The first 128 bytes hashed for the label of `node` in `layer_index`.
pub open spec fn label_prefix(replica_id: Seq<u8>, layer_index: u32, node: u64) -> Seq<u8> {
    expand_spec(replica_id) + header_spec(layer_index, node)
}

/// Reads 32 bytes as a field element's bytes: the two most significant bits
/// of the last byte are cleared, so that the value lies below the modulus.
pub open spec fn fr_safe(b: Seq<u8>) -> Seq<u8> {
    b.take(31).push(b[31] & 0x3f)
}

/// The label kept from a 64-byte digest: its first 32 bytes, made field-safe.
pub open spec fn label_of_digest(d: Seq<u8>) -> Seq<u8> {
    fr_safe(d.take(32))
}

/// `labels` with the slot of `node` replaced by `label`.
pub open spec fn with_label(labels: Seq<u8>, node: int, label: Seq<u8>) -> Seq<u8> {
    labels.take(node * 32) + label + labels.skip(node * 32 + 32)
}

/// The label of node 0, which has no parents.
pub open spec fn first_label(replica_id: Seq<u8>, layer_index: u32) -> Seq<u8> {
    label_of_digest(sha512_spec(label_prefix(replica_id, layer_index, 0)))
}

/// A hasher that has absorbed the 128-byte prefix of a label and nothing else.
pub open spec fn seeded(h: Sha512, replica_id: Seq<u8>, layer_index: u32, node: u64) -> bool {
    h.absorbed(label_prefix(replica_id, layer_index, node))
}

/// A field-safe value has its two top bits clear.
pub proof fn lemma_fr_safe_top_bits(b: Seq<u8>)
    requires
        b.len() == 32,
    ensures
        fr_safe(b).len() == 32,
        fr_safe(b)[31] < 64,
        fr_safe(b)[31] & 0xc0 == 0,
        fr_safe(b).take(31) == b.take(31),
{
    let x = b[31];
    assert(x & 0x3f < 64 && (x & 0x3f) & 0xc0 == 0) by (bit_vector);
    assert(fr_safe(b).take(31) =~= b.take(31));
}

/// The header block of a label.
pub(crate) fn header_block(layer_index: u32, node: u64) -> (r: [u8; 64])
    ensures
        r@ == header_spec(layer_index, node),
{
    let mut buffer = [0u8; 64];
    let mut j: usize = 0;
    while j < 4
        invariant
            j <= 4,
            forall|k: int| 0 <= k < j ==> buffer@[k] == be_u32(layer_index)[k],
            forall|k: int| 4 <= k < 64 ==> buffer@[k] == 0,
        decreases 4 - j,
    {
        let sh: u32 = 24 - 8 * (j as u32);
        buffer[j] = ((layer_index >> sh) & 0xff) as u8;
        j = j + 1;
    }
    let mut j: usize = 0;
    while j < 8
        invariant
            j <= 8,
            forall|k: int| 0 <= k < 4 ==> buffer@[k] == be_u32(layer_index)[k],
            forall|k: int| 0 <= k < j ==> buffer@[4 + k] == be_u64(node)[k],
            forall|k: int| 12 <= k < 64 ==> buffer@[k] == 0,
        decreases 8 - j,
    {
        let sh: u64 = 56 - 8 * (j as u64);
        buffer[4 + j] = ((node >> sh) & 0xff) as u8;
        j = j + 1;
    }
    assert(buffer@ =~= header_spec(layer_index, node));
    buffer
}

/// A hasher that has absorbed the expanded replica identifier and the
/// header block of `node` in `layer_index`.
fn seeded_hasher(replica_id: &[u8; 32], layer_index: u32, node: u64) -> (r: Sha512)
    ensures
        seeded(r, replica_id@, layer_index, node),
{
    let replica_id_expand = bits256_expand_to_bits512(replica_id.as_slice());
    let buffer = header_block(layer_index, node);
    let mut hasher = Sha512::new();
    let blocks: [&[u8]; 2] = [replica_id_expand.as_slice(), buffer.as_slice()];
    let bslice: &[&[u8]] = blocks.as_slice();
    let ghost bs = block_seqs(bslice);
    assert(bs =~= seq![replica_id_expand@, buffer@]);
    assert(bs.flatten() =~= label_prefix(replica_id@, layer_index, node)) by {
        reveal_with_fuel(Seq::flatten, 3);
        assert(seq![replica_id_expand@, buffer@].drop_first() =~= seq![buffer@]);
        assert(seq![buffer@].drop_first() =~= Seq::<Seq<u8>>::empty());
    }
    hasher.input(bslice);
    assert(Seq::<u8>::empty() + bs.flatten() =~= bs.flatten());
    hasher
}

/// Writes the label kept from `hash` into the slot of `node`.
fn store_label(layer_labels: &mut [u8], node: usize, hash: &[u8; 64])
    requires
        node * 32 + 32 <= old(layer_labels)@.len(),
    ensures
        final(layer_labels)@ == with_label(old(layer_labels)@, node as int, label_of_digest(hash@)),
{
    let ghost l0 = layer_labels@;
    let len: usize = layer_labels.len();
    assert(node * NODE_SIZE + NODE_SIZE <= len);
    let start: usize = node * NODE_SIZE;
    let end: usize = start + NODE_SIZE;
    let mut j: usize = 0;
    while j < NODE_SIZE
        invariant
            start == node * 32,
            end == start + 32,
            end <= l0.len(),
            layer_labels@.len() == l0.len(),
            j <= 32,
            forall|k: int| 0 <= k < start ==> layer_labels@[k] == l0[k],
            forall|k: int| 0 <= k < j ==> layer_labels@[start + k] == hash@[k],
            forall|k: int| start + j <= k < l0.len() ==> layer_labels@[k] == l0[k],
        decreases 32 - j,
    {
        layer_labels[start + j] = hash[j];
        j = j + 1;
    }
    layer_labels[end - 1] = layer_labels[end - 1] & 0x3f;
    assert(layer_labels@ =~= with_label(l0, node as int, label_of_digest(hash@)));
}

/// Derives the label of `node` in layer `layer_index` and writes it into
/// the node's 32-byte slot of `layer_labels`.
///
/// Node 0 has no parents: its label is hashed from the expanded replica
/// identifier and the header alone. For any other node the hasher that has
/// absorbed those two blocks is handed to `copy_parents_data` (the graph,
/// which absorbs the parents' label data and finishes the hash), together
/// with the node index and the layer's labels. An error it returns is
/// returned unchanged, and `layer_labels` is then left as it was.
pub fn create_label<E, F: FnOnce(u32, &[u8], Sha512) -> Result<[u8; 64], E>>(
    copy_parents_data: F,
    replica_id: &[u8; 32],
    layer_labels: &mut [u8],
    layer_index: usize,
    node: usize,
) -> (r: Result<(), E>)
    requires
        layer_index <= u32::MAX,
        node <= u32::MAX,
        node * 32 + 32 <= old(layer_labels)@.len(),
        node > 0 ==> forall|n: u32, l: &[u8], h: Sha512| copy_parents_data.requires((n, l, h)),
    ensures
        node == 0 ==> r is Ok && final(layer_labels)@ == with_label(
            old(layer_labels)@,
            0,
            first_label(replica_id@, layer_index as u32),
        ),
        node > 0 ==> exists|l: &[u8], h: Sha512, out: Result<[u8; 64], E>| {
            &&& l@ == old(layer_labels)@
            &&& seeded(h, replica_id@, layer_index as u32, node as u64)
            &&& #[trigger] copy_parents_data.ensures((node as u32, l, h), out)
            &&& match out {
                Ok(d) => r is Ok && final(layer_labels)@ == with_label(
                    old(layer_labels)@,
                    node as int,
                    label_of_digest(d@),
                ),
                Err(e) => r == Err::<(), E>(e) && final(layer_labels)@ == old(layer_labels)@,
            }
        },
        r is Ok ==> final(layer_labels)@[node * 32 + 31] < 64,
{
    let hasher = seeded_hasher(replica_id, layer_index as u32, node as u64);
    let hash = if node > 0 {
        let out = copy_parents_data(node as u32, &*layer_labels, hasher);
        match out {
            Ok(d) => d,
            Err(e) => {
                return Err(e);
            },
        }
    } else {
        hasher.finish()
    };
    let ghost prev = layer_labels@;
    store_label(layer_labels, node, &hash);
    proof {
        lemma_stored_label(prev, node as int, hash@);
    }
    Ok(())
}

/// Derives the label of `node` in layer `layer_index` as `create_label`
/// does, except that the graph's parent-copying routine
/// (`copy_parents_data_exp`) also receives `exp_parents_data`, the
/// precomputed label data of the node's expander parents. An error it returns is
/// returned unchanged, and `layer_labels` is then left as it was.
pub fn create_label_exp<E, F: FnOnce(u32, &[u8], &[u8], Sha512) -> Result<[u8; 64], E>>(
    copy_parents_data_exp: F,
    replica_id: &[u8; 32],
    exp_parents_data: &[u8],
    layer_labels: &mut [u8],
    layer_index: usize,
    node: usize,
) -> (r: Result<(), E>)
    requires
        layer_index <= u32::MAX,
        node <= u32::MAX,
        node * 32 + 32 <= old(layer_labels)@.len(),
        node > 0 ==> forall|n: u32, l: &[u8], x: &[u8], h: Sha512| copy_parents_data_exp.requires((n, l, x, h)),
    ensures
        node == 0 ==> r is Ok && final(layer_labels)@ == with_label(
            old(layer_labels)@,
            0,
            first_label(replica_id@, layer_index as u32),
        ),
        node > 0 ==> exists|l: &[u8], h: Sha512, out: Result<[u8; 64], E>| {
            &&& l@ == old(layer_labels)@
            &&& seeded(h, replica_id@, layer_index as u32, node as u64)
            &&& #[trigger] copy_parents_data_exp.ensures((node as u32, l, exp_parents_data, h), out)
            &&& match out {
                Ok(d) => r is Ok && final(layer_labels)@ == with_label(
                    old(layer_labels)@,
                    node as int,
                    label_of_digest(d@),
                ),
                Err(e) => r == Err::<(), E>(e) && final(layer_labels)@ == old(layer_labels)@,
            }
        },
        r is Ok ==> final(layer_labels)@[node * 32 + 31] < 64,
{
    let hasher = seeded_hasher(replica_id, layer_index as u32, node as u64);
    let hash = if node > 0 {
        let out = copy_parents_data_exp(node as u32, &*layer_labels, exp_parents_data, hasher);
        match out {
            Ok(d) => d,
            Err(e) => {
                return Err(e);
            },
        }
    } else {
        hasher.finish()
    };
    let ghost prev = layer_labels@;
    store_label(layer_labels, node, &hash);
    proof {
        lemma_stored_label(prev, node as int, hash@);
    }
    Ok(())
}

/// The slot of a stored label holds a field-safe value.
proof fn lemma_stored_label(prev: Seq<u8>, node: int, d: Seq<u8>)
    requires
        d.len() == 64,
        0 <= node,
        node * 32 + 32 <= prev.len(),
    ensures
        with_label(prev, node, label_of_digest(d))[node * 32 + 31] < 64,
{
    lemma_fr_safe_top_bits(d.take(32));
}

} // verus!
