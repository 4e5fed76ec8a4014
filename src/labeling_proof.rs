//! The record that proves one label: the layer, the node and the parents'
//! labels, from which the label is recomputed with the general-purpose
//! SHA-512 and compared.

use vstd::prelude::*;
use crate::create_label::{first_label, header_block, label_of_digest, label_prefix};
use crate::hash_model::{bit_len_limit, sha512_spec};
use crate::sha512::Sha512;
use crate::utils::{bits256_expand_to_bits512, expand_spec};

verus! {

/// Relies on sha2::Sha512 through Digest::digest: the 64-byte SHA-512 digest
/// of `m`. Its core starts from the SHA-512 initial value, runs
/// sha2::compress512 over each whole 128-byte block, pads the rest with
/// 0x80, zeros and the 128-bit big-endian bit length, and writes the words
/// out big-endian.
#[verifier::external_body]
pub(crate) fn sha512_digest(m: &[u8]) -> (r: [u8; 64])
    ensures
        r@ == sha512_spec(m@),
{
    let d = <sha2::Sha512 as sha2::Digest>::digest(m);
    let mut r = [0u8; 64];
    r.copy_from_slice(&d[..]);
    r
}

/// The expansions of the parents, one after another.
pub open spec fn expanded_parents(parents: Seq<Seq<u8>>) -> Seq<u8> {
    parents.map_values(|p: Seq<u8>| expand_spec(p)).flatten()
}

/// The byte string hashed to recompute a label: the expanded replica
/// identifier, the header block of the layer and the node, and each parent
/// expanded, in order.
pub open spec fn proof_message(replica_id: Seq<u8>, layer_index: u32, node: u64, parents: Seq<Seq<u8>>) -> Seq<u8> {
    label_prefix(replica_id, layer_index, node) + expanded_parents(parents)
}

/// The label recomputed from a record: the first 32 bytes of the digest,
/// made field-safe.
pub open spec fn proof_label(replica_id: Seq<u8>, layer_index: u32, node: u64, parents: Seq<Seq<u8>>) -> Seq<u8> {
    label_of_digest(sha512_spec(proof_message(replica_id, layer_index, node, parents)))
}

/// A hasher seeded for a label that has absorbed the expanded parents in
/// order, in pairs, and finishes, with `finish` after an even number of
/// parents or with `finish_with` on the last expanded parent after an odd
/// number, yields the label that a record of the same inputs verifies. For
/// node 0, which has no parents, the label that the engine derives from the
/// identifier and the layer alone is that label too.
pub proof fn lemma_label_round_trip(
    h: Sha512,
    replica_id: Seq<u8>,
    layer_index: u32,
    node: u64,
    parents: Seq<Seq<u8>>,
)
    requires
        replica_id.len() == 32,
        forall|i: int| 0 <= i < parents.len() ==> (#[trigger] parents[i]).len() == 32,
    ensures
        parents.len() % 2 == 0 && h.absorbed(proof_message(replica_id, layer_index, node, parents))
            ==> label_of_digest(h.finish_spec()) == proof_label(replica_id, layer_index, node, parents),
        parents.len() % 2 == 1 && h.absorbed(proof_message(replica_id, layer_index, node, parents.drop_last()))
            && h.bit_len() + 512 < bit_len_limit()
            ==> label_of_digest(h.finish_with_spec(expand_spec(parents.last())))
                == proof_label(replica_id, layer_index, node, parents),
        first_label(replica_id, layer_index) == proof_label(replica_id, layer_index, 0, Seq::empty()),
{
    let m = |p: Seq<u8>| expand_spec(p);
    if parents.len() % 2 == 0 && h.absorbed(proof_message(replica_id, layer_index, node, parents)) {
        h.lemma_absorbed_finish(proof_message(replica_id, layer_index, node, parents));
    }
    if parents.len() % 2 == 1 && h.absorbed(proof_message(replica_id, layer_index, node, parents.drop_last()))
        && h.bit_len() + 512 < bit_len_limit() {
        let init = parents.drop_last();
        let last = parents.last();
        assert(parents =~= init.push(last));
        assert(parents.map_values(m) =~= init.map_values(m).push(expand_spec(last)));
        init.map_values(m).lemma_flatten_push(expand_spec(last));
        assert(proof_message(replica_id, layer_index, node, parents)
            =~= proof_message(replica_id, layer_index, node, init) + expand_spec(last));
        h.lemma_absorbed_finish_with(proof_message(replica_id, layer_index, node, init), expand_spec(last));
    }
    assert(Seq::<Seq<u8>>::empty().map_values(m) =~= Seq::<Seq<u8>>::empty());
    assert(expanded_parents(Seq::empty()) =~= Seq::<u8>::empty());
    assert(proof_message(replica_id, layer_index, 0, Seq::empty()) =~= label_prefix(replica_id, layer_index, 0));
}

/// The views of a list of 32-byte values.
pub open spec fn domain_seqs(v: Seq<[u8; 32]>) -> Seq<Seq<u8>> {
    v.map_values(|d: [u8; 32]| d@)
}

/// Appends the bytes of `src` to `dst`.
pub(crate) fn extend_bytes(dst: &mut Vec<u8>, src: &[u8])
    ensures
        final(dst)@ == old(dst)@ + src@,
{
    let ghost d0 = dst@;
    let mut j: usize = 0;
    while j < src.len()
        invariant
            j <= src@.len(),
            dst@ == d0 + src@.take(j as int),
        decreases src@.len() - j,
    {
        dst.push(src[j]);
        assert(src@.take(j + 1) =~= src@.take(j as int).push(src@[j as int]));
        j = j + 1;
    }
    assert(src@.take(j as int) =~= src@);
}

/// Recomputes the label of `node` in `layer_index` from its parents.
pub(crate) fn recompute_label(replica_id: &[u8; 32], layer_index: u32, node: u64, parents: &Vec<[u8; 32]>) -> (r: [u8; 32])
    ensures
        r@ == proof_label(replica_id@, layer_index, node, domain_seqs(parents@)),
{
    let mut msg: Vec<u8> = Vec::new();
    let replica_id_expand = bits256_expand_to_bits512(replica_id.as_slice());
    extend_bytes(&mut msg, replica_id_expand.as_slice());
    let header = header_block(layer_index, node);
    extend_bytes(&mut msg, header.as_slice());
    let ghost ps = domain_seqs(parents@);
    let ghost prefix = label_prefix(replica_id@, layer_index, node);
    assert(msg@ =~= prefix);
    let mut i: usize = 0;
    while i < parents.len()
        invariant
            i <= parents@.len(),
            ps == domain_seqs(parents@),
            msg@ == prefix + expanded_parents(ps.take(i as int)),
        decreases parents@.len() - i,
    {
        let data = bits256_expand_to_bits512(parents[i].as_slice());
        extend_bytes(&mut msg, data.as_slice());
        proof {
            let m = |p: Seq<u8>| expand_spec(p);
            assert(ps.take(i + 1) =~= ps.take(i as int).push(ps[i as int]));
            assert(ps.take(i + 1).map_values(m) =~= ps.take(i as int).map_values(m).push(expand_spec(ps[i as int])));
            ps.take(i as int).map_values(m).lemma_flatten_push(expand_spec(ps[i as int]));
        }
        i = i + 1;
    }
    assert(ps.take(i as int) =~= ps);
    let hash = sha512_digest(msg.as_slice());
    let mut label = [0u8; 32];
    let mut j: usize = 0;
    while j < 32
        invariant
            j <= 32,
            forall|k: int| 0 <= k < j ==> label@[k] == hash@[k],
        decreases 32 - j,
    {
        label[j] = hash[j];
        j = j + 1;
    }
    label[31] = label[31] & 0x3f;
    assert(label@ =~= label_of_digest(hash@));
    label
}

/// Whether two 32-byte values are equal.
pub(crate) fn bytes_eq(a: &[u8; 32], b: &[u8; 32]) -> (r: bool)
    ensures
        r == (a@ == b@),
{
    let mut j: usize = 0;
    while j < 32
        invariant
            j <= 32,
            forall|k: int| 0 <= k < j ==> a@[k] == b@[k],
        decreases 32 - j,
    {
        if a[j] != b[j] {
            return false;
        }
        j = j + 1;
    }
    assert(a@ =~= b@);
    true
}

/// The layer, the node and the parents' labels that a label was derived from.
pub struct LabelingProof {
    parents: Vec<[u8; 32]>,
    layer_index: u32,
    node: u64,
}

impl LabelingProof {
    /// The parents' labels.
    pub closed spec fn parent_seqs(&self) -> Seq<Seq<u8>> {
        domain_seqs(self.parents@)
    }

    /// The layer index.
    pub closed spec fn layer(&self) -> u32 {
        self.layer_index
    }

    /// The node index.
    pub closed spec fn node_index(&self) -> u64 {
        self.node
    }

    /// The label that this record derives for `replica_id`.
    pub open spec fn label_spec(&self, replica_id: Seq<u8>) -> Seq<u8> {
        proof_label(replica_id, self.layer(), self.node_index(), self.parent_seqs())
    }

    /// A record of the label of `node` in `layer_index` with these parents.
    pub fn new(layer_index: u32, node: u64, parents: Vec<[u8; 32]>) -> (r: Self)
        ensures
            r.layer() == layer_index,
            r.node_index() == node,
            r.parent_seqs() == domain_seqs(parents@),
    {
        LabelingProof { node, layer_index, parents }
    }

    fn create_label(&self, replica_id: &[u8; 32]) -> (r: [u8; 32])
        ensures
            r@ == self.label_spec(replica_id@),
    {
        recompute_label(replica_id, self.layer_index, self.node, &self.parents)
    }

    /// Whether `expected_label` is the label that this record derives for
    /// `replica_id`.
    pub fn verify(&self, replica_id: &[u8; 32], expected_label: &[u8; 32]) -> (r: bool)
        ensures
            r == (expected_label@ == self.label_spec(replica_id@)),
    {
        let label = self.create_label(replica_id);
        bytes_eq(expected_label, &label)
    }
}

} // verus!
