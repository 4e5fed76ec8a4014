//! Node labeling for a layered proof of replication: a streaming SHA-512
//! state built on a raw compression function, the 32-to-64 byte domain
//! expansion, label derivation and the records that verify a label or an
//! encoding key.

pub mod hash_model;
pub mod sha512;
pub mod utils;
pub mod create_label;
pub mod labeling_proof;
pub mod encoding_proof;
