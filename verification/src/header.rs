//! The block header record and its proof-of-work solution, held with plain
//! field values so that every field passes through an explicit scalar codec
//! rather than a reflective encoding mechanism.

use vstd::prelude::*;

use crate::scalar::EcPoint;

verus! {

/// A 32-byte digest, the bytes representation of a modifier id or a Merkle
/// root.
#[derive(Debug, PartialEq, Eq)]
pub struct Digest32(pub [u8; 32]);

/// The 33-byte authenticated-dictionary digest of the state after block
/// application.
#[derive(Debug, PartialEq, Eq)]
pub struct ADDigest(pub [u8; 33]);

/// The bytes representation of the modifier id of a block.
#[derive(Debug, PartialEq, Eq)]
pub struct BlockId(pub Digest32);

/// Miner votes for changing system parameters: three vote bytes.
#[derive(Debug, PartialEq, Eq)]
pub struct Votes(pub [u8; 3]);

/// Solution of an Autolykos proof-of-work puzzle. In version 1 all four
/// fields are used; in version 2 only the miner key and the nonce.
#[derive(Debug, PartialEq, Eq)]
pub struct AutolykosSolution {
    /// Public key of the miner, a compressed curve point.
    pub miner_pk: EcPoint,
    /// One-time public key preventing revealing of the miner's secret.
    pub pow_onetime_pk: Option<EcPoint>,
    /// The raw nonce bytes; externally a lowercase hexadecimal string.
    pub nonce: Vec<u8>,
    /// Distance between the nonce's pseudo-random number and the miner's
    /// secret: lower means harder-won. Externally an optional decimal
    /// string; the domain is non-negative and held as a `u64`.
    pub pow_distance: Option<u64>,
}

/// Data of one block header as visible to Sigma propositions.
#[derive(Debug, PartialEq, Eq)]
pub struct Header {
    /// Block version, increased on every soft and hard fork.
    pub version: u8,
    /// Bytes representation of the modifier id of this header.
    pub id: BlockId,
    /// Bytes representation of the modifier id of the parent block.
    pub parent_id: BlockId,
    /// Hash of the ADProofs for transactions in the block.
    pub ad_proofs_root: Digest32,
    /// Digest of the state after block application.
    pub state_root: ADDigest,
    /// Root hash of the Merkle tree of transactions in the block.
    pub transaction_root: Digest32,
    /// Timestamp of the block in milliseconds from the epoch.
    pub timestamp: u64,
    /// Current difficulty in its compressed view.
    pub n_bits: u64,
    /// Block height.
    pub height: u32,
    /// Root hash of the extension section.
    pub extension_root: Digest32,
    /// Solution of the Autolykos proof-of-work puzzle.
    pub autolykos_solution: AutolykosSolution,
    /// Miner votes for changing system parameters.
    pub votes: Votes,
}

} // verus!
