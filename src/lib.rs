//! Inspection of a persisted radix-16 Merkle-Patricia state trie: nibble paths,
//! storage-key encoding and decoding, node decoding, path walking, comparison of two
//! roots, and the JSON text of the results.

pub mod codec;
pub mod diff;
pub mod errors;
pub mod hashing;
pub mod hexcode;
pub mod nibble;
pub mod node;
pub mod report;
pub mod stream;
pub mod walker;

pub use codec::{
    black2_128_concat_decode, blake2_128_concat_encode, get_storage_key_hash,
    hex_str_to_state_hash, storage_key_semantic_decode, twox_64_concat_decode,
    twox_64_concat_encode, KeyRequest,
};
pub use diff::{diff, DiffEntry, NodeChangeStatus, SubtrieEntry};
pub use errors::Error;
pub use nibble::{map_char_to_pos, map_pos_to_char, parse_nibbles, render_nibbles};
pub use hashing::Blake2Hasher;
pub use report::{json_diff, json_output};
pub use stream::{decode_line, decode_storage_key, describe_storage_key};
pub use walker::{get_subtrie_node, Walker};
