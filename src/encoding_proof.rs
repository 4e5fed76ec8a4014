//! The record that proves one encoded node: the encoding key is recomputed
//! from the layer, the node and the parents' labels, the decoded node is
//! encoded with it, and the result is compared.

use vstd::prelude::*;
use crate::labeling_proof::{bytes_eq, domain_seqs, proof_label, recompute_label};

verus! {

/// The layer, the node and the parents' labels that an encoding key was
/// derived from.
pub struct EncodingProof {
    parents: Vec<[u8; 32]>,
    layer_index: u32,
    node: u64,
}

impl EncodingProof {
    /// The parents' labels.
    pub closed spec fn parent_seqs(&self) -> Seq<Seq<u8>> {
        domain_seqs(self.parents@)
    }

    /// The layer index.
    pub closed spec fn layer(&self) -> u32 {
        self.layer_index
    }

    /// The node index.
    pub closed spec fn node_index(&self) -> u64 {
        self.node
    }

    /// The encoding key that this record derives for `replica_id`.
    pub open spec fn key_spec(&self, replica_id: Seq<u8>) -> Seq<u8> {
        proof_label(replica_id, self.layer(), self.node_index(), self.parent_seqs())
    }

    /// A record of the encoding key of `node` in `layer_index` with these
    /// parents.
    pub fn new(layer_index: u32, node: u64, parents: Vec<[u8; 32]>) -> (r: Self)
        ensures
            r.layer() == layer_index,
            r.node_index() == node,
            r.parent_seqs() == domain_seqs(parents@),
    {
        EncodingProof { layer_index, node, parents }
    }

    fn create_key(&self, replica_id: &[u8; 32]) -> (r: [u8; 32])
        ensures
            r@ == self.key_spec(replica_id@),
    {
        recompute_label(replica_id, self.layer_index, self.node, &self.parents)
    }

    /// Whether encoding `decoded_node` with the key that this record derives
    /// for `replica_id` gives `exp_encoded_node`. `encode` is the encoding
    /// step, called once with the key and the decoded node.
    pub fn verify<F: FnOnce([u8; 32], [u8; 32]) -> [u8; 32]>(
        &self,
        replica_id: &[u8; 32],
        exp_encoded_node: &[u8; 32],
        decoded_node: &[u8; 32],
        encode: F,
    ) -> (r: bool)
        requires
            forall|key: [u8; 32]| encode.requires((key, *decoded_node)),
        ensures
            exists|key: [u8; 32], encoded: [u8; 32]| {
                &&& key@ == self.key_spec(replica_id@)
                &&& #[trigger] encode.ensures((key, *decoded_node), encoded)
                &&& r == (exp_encoded_node@ == encoded@)
            },
    {
        let key = self.create_key(replica_id);
        let encoded_node = encode(key, *decoded_node);
        bytes_eq(exp_encoded_node, &encoded_node)
    }
}

} // verus!
