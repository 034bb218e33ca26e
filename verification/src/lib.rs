//! Federated on-chain wallet: peg-in claiming, peg-out transaction building,
//! round consensus (block height, fee rate, randomness beacon), chain
//! following, and the FROST threshold-signing state machine that turns a
//! peg-out request into a broadcast-ready transaction.
//!
//! All state lives in plain data ([`db::WalletDb`]); every consensus-driven
//! transition is a deterministic function of that state and the ordered
//! consensus items, so that all peers compute identical results.
pub mod builder;
pub mod chain;
pub mod config;
pub mod consensus;
pub mod db;
pub mod epoch;
pub mod frost;
pub mod tweak;
pub mod types;
pub mod wallet;

pub use types::Address;
pub use types::BlockInfo;
pub use types::AddressType;
pub use types::Feerate;
pub use types::FrostNonce;
pub use types::FrostSigShare;
pub use types::InputMeta;
pub use types::Network;
pub use types::OutPoint;
pub use types::PegInProof;
pub use types::PegOut;
pub use types::PegOutFees;
pub use types::PegOutNonceItem;
pub use types::PegOutSignatureItem;
pub use types::PendingTransaction;
pub use types::ProcessPegOutSigError;
pub use types::Psbt;
pub use types::PsbtInput;
pub use types::RoundConsensus;
pub use types::RoundConsensusItem;
pub use types::SpendableUTXO;
pub use types::TransactionData;
pub use types::TxInput;
pub use types::TxOutput;
pub use types::UnsignedTransaction;
pub use types::WalletConsensusItem;
pub use types::WalletError;
pub use types::is_address_valid_for_network;
