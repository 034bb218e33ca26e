//! The wallet's static federation configuration.
use vstd::prelude::*;

use crate::frost::FrostKeyNormal;
use crate::frost::SecretShare;
use crate::types::Feerate;
use crate::types::Network;

verus! {

/// Everything a peer is configured with: the network it pegs to, the
/// federation descriptor every deposit script derives from, this peer's id and
/// key material, how many confirmations a block needs before it may be
/// proposed, and the fee rate to fall back to when the chain source gives
/// none.
pub struct WalletConfig {
    pub network: Network,
    pub peg_in_descriptor: String,
    pub peer_id: u16,
    pub finality_delay: u32,
    pub default_fee: Feerate,
    /// How many signature shares a combined signature needs; must equal the
    /// threshold the federation key was generated with.
    pub threshold: usize,
    pub frost_key: FrostKeyNormal,
    pub peg_in_key: SecretShare,
}

} // verus!
