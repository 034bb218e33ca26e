//! Plain data model of the federated wallet: consensus items, fee rates,
//! transactions, UTXOs and errors. Amounts are satoshis held in `u64`;
//! hashes, transaction ids, tweaks and scripts are byte vectors.
use vstd::prelude::*;

verus! {

/// Fee rate in satoshis per kilo-virtual-byte.
#[derive(Clone, Copy, Debug, PartialEq, Eq, Structural, Hash)]
pub struct Feerate {
    pub sats_per_kvb: u64,
}

/// `fee = sats_per_kvb * weight / 1000`, truncating integer division.
pub open spec fn spec_fee(sats_per_kvb: int, weight: int) -> int {
    sats_per_kvb * weight / 1000
}

impl Feerate {
    /// Fee owed for a transaction of the given weight at this rate.
    pub fn calculate_fee(&self, weight: u64) -> (r: u64)
        requires
            self.sats_per_kvb * weight <= u64::MAX,
        ensures
            r == spec_fee(self.sats_per_kvb as int, weight as int),
    {
        self.sats_per_kvb * weight / 1000
    }
}

/// The fee commitment a peg-out carries: rate and the total weight it paid for.
#[derive(Clone, Copy, Debug, PartialEq, Eq, Structural, Hash)]
pub struct PegOutFees {
    pub fee_rate: Feerate,
    pub total_weight: u64,
}

impl PegOutFees {
    /// The fee amount in satoshis that these parameters commit to.
    pub fn amount(&self) -> (r: u64)
        requires
            self.fee_rate.sats_per_kvb * self.total_weight <= u64::MAX,
        ensures
            r == spec_fee(self.fee_rate.sats_per_kvb as int, self.total_weight as int),
    {
        self.fee_rate.calculate_fee(self.total_weight)
    }
}

/// One peer's per-round proposal: chain height, fee rate and randomness share.
#[derive(Clone, Debug, PartialEq, Eq)]
pub struct RoundConsensusItem {
    pub block_height: u32,
    pub fee_rate: Feerate,
    /// 32 bytes of fresh randomness.
    pub randomness: Vec<u8>,
}

/// The agreed per-round values, replaced at every epoch that carried proposals.
#[derive(Clone, Debug, PartialEq, Eq)]
pub struct RoundConsensus {
    pub block_height: u32,
    pub fee_rate: Feerate,
    /// XOR fold of all peers' randomness contributions.
    pub randomness_beacon: Vec<u8>,
}

/// A public FROST nonce (a serialized pair of curve points) as sent on the wire.
#[derive(Clone, Debug, PartialEq, Eq)]
pub struct FrostNonce(pub Vec<u8>);

/// A FROST signature share (a serialized scalar) as sent on the wire.
#[derive(Clone, Debug, PartialEq, Eq)]
pub struct FrostSigShare(pub Vec<u8>);

/// Per-transaction nonce contribution: one nonce per transaction input.
#[derive(Clone, Debug, PartialEq, Eq)]
pub struct PegOutNonceItem {
    pub txid: Vec<u8>,
    pub nonces: Vec<FrostNonce>,
}

/// Per-transaction signature contribution: one share per transaction input.
#[derive(Clone, Debug, PartialEq, Eq)]
pub struct PegOutSignatureItem {
    pub txid: Vec<u8>,
    pub signatures: Vec<FrostSigShare>,
}

/// Everything this module feeds into (and receives from) the atomic broadcast.
#[derive(Clone, Debug, PartialEq, Eq)]
pub enum WalletConsensusItem {
    RoundConsensus(RoundConsensusItem),
    PegOutNonce(PegOutNonceItem),
    PegOutSignature(PegOutSignatureItem),
}

/// A transaction output: amount in satoshis and the locking script's bytes.
#[derive(Clone, Debug, PartialEq, Eq)]
pub struct TxOutput {
    pub value: u64,
    pub script_pubkey: Vec<u8>,
}

/// Reference to a transaction output: the funding transaction id and index.
#[derive(Clone, Debug, PartialEq, Eq, Hash)]
pub struct OutPoint {
    pub txid: Vec<u8>,
    pub vout: u32,
}

/// A transaction input: the outpoint it spends, its sequence number and
/// witness stack (empty until the federation has signed).
#[derive(Clone, Debug, PartialEq, Eq)]
pub struct TxInput {
    pub previous_output: OutPoint,
    pub sequence: u32,
    pub witness: Vec<Vec<u8>>,
}

/// A Bitcoin transaction, reduced to the fields this module reads and writes.
#[derive(Clone, Debug, PartialEq, Eq)]
pub struct TransactionData {
    pub version: i32,
    pub lock_time: u32,
    pub input: Vec<TxInput>,
    pub output: Vec<TxOutput>,
}

/// Signing metadata for one transaction input: the output being spent and the
/// tweak under which its script was derived (the proprietary annotation).
#[derive(Clone, Debug, PartialEq, Eq)]
pub struct PsbtInput {
    pub witness_utxo: TxOutput,
    pub tweak: Vec<u8>,
}

/// A partially signed transaction: the unsigned transaction, per-input signing
/// metadata, and the change output's tweak (the proprietary annotation on the
/// change output).
#[derive(Clone, Debug, PartialEq, Eq)]
pub struct Psbt {
    pub unsigned_tx: TransactionData,
    pub inputs: Vec<PsbtInput>,
    pub change_tweak: Vec<u8>,
}

/// A UTXO the federation can spend: the tweak that derived its script and its
/// value in satoshis.
#[derive(Clone, Debug, PartialEq, Eq)]
pub struct SpendableUTXO {
    pub tweak: Vec<u8>,
    pub amount: u64,
}

/// A PSBT that is awaiting enough signatures from the federation to become a
/// `PendingTransaction`.
#[derive(Clone, Debug, PartialEq, Eq)]
pub struct UnsignedTransaction {
    pub psbt: Psbt,
    pub nonces: Vec<(u16, PegOutNonceItem)>,
    pub signatures: Vec<(u16, PegOutSignatureItem)>,
    pub change: u64,
    pub fees: PegOutFees,
}

/// A peg-out transaction that is ready to be broadcast, with the tweak that
/// derived its change output's script.
#[derive(Clone, Debug, PartialEq, Eq)]
pub struct PendingTransaction {
    pub tx: TransactionData,
    pub tweak: Vec<u8>,
    pub change: u64,
}

/// The Bitcoin network a configuration or address belongs to.
#[derive(Clone, Copy, Debug, PartialEq, Eq, Structural, Hash)]
pub enum Network {
    Bitcoin,
    Testnet,
    Signet,
    Regtest,
}

/// The standard address kinds this module distinguishes.
#[derive(Clone, Copy, Debug, PartialEq, Eq, Structural, Hash)]
pub enum AddressType {
    P2pkh,
    P2sh,
    P2wpkh,
    P2wsh,
    P2tr,
}

/// A recipient address, reduced to what validation and transaction building
/// read: its declared network, its kind, and its locking script.
#[derive(Clone, Debug, PartialEq, Eq)]
pub struct Address {
    pub network: Network,
    pub address_type: Option<AddressType>,
    pub script_pubkey: Vec<u8>,
}

/// A user's peg-out request.
#[derive(Clone, Debug, PartialEq, Eq)]
pub struct PegOut {
    pub recipient: Address,
    pub amount: u64,
    pub fees: PegOutFees,
}

/// A peg-in proof, reduced to the fields validation reads: the block it points
/// into, the claimed outpoint and output, and the tweaked contract key.
#[derive(Clone, Debug, PartialEq, Eq)]
pub struct PegInProof {
    pub block_hash: Vec<u8>,
    pub outpoint: OutPoint,
    pub tx_output: TxOutput,
    /// Serialized public key (33 bytes); doubles as the UTXO's tweak.
    pub tweak_contract_key: Vec<u8>,
}

/// What a validated peg-in is worth to the host: the claimed amount in
/// millisatoshis and the keys that must have signed the host transaction.
#[derive(Clone, Debug, PartialEq, Eq)]
pub struct InputMeta {
    pub amount_msat: u64,
    pub pub_keys: Vec<Vec<u8>>,
}

/// What the chain follower reads of one fetched block: its hash and the ids
/// of the transactions it confirms.
#[derive(Clone, Debug, PartialEq, Eq)]
pub struct BlockInfo {
    pub hash: Vec<u8>,
    pub txids: Vec<Vec<u8>>,
}

/// Errors surfaced to callers of the wallet module.
#[derive(Clone, Debug, PartialEq, Eq)]
pub enum WalletError {
    WrongNetwork(Network, Network),
    RpcError(String),
    UnknownNetwork(String),
    UnknownPegInProofBlock(Vec<u8>),
    PegInProofError(String),
    PegInAlreadyClaimed,
    PegOutFeeRate(Feerate, Feerate),
    NotEnoughSpendableUTXO,
}

/// Errors of the signature-processing path.
#[derive(Clone, Debug, PartialEq, Eq)]
pub enum ProcessPegOutSigError {
    UnknownTransaction(Vec<u8>),
    WrongSignatureCount(usize, usize),
    SighashError,
    MalformedSignature,
    InvalidSignature,
    DuplicateSignature,
    MissingOrMalformedChangeTweak,
    ErrorFinalizingPsbt,
}

/// Network compatibility rule for recipient addresses: testnet legacy
/// addresses pass against testnet, regtest and signet; other testnet addresses
/// pass against testnet and signet; everything else must match exactly.
pub open spec fn spec_address_valid_for_network(address: Address, network: Network) -> bool {
    if address.network == Network::Testnet
        && (address.address_type == Some(AddressType::P2pkh)
            || address.address_type == Some(AddressType::P2sh)) {
        network == Network::Testnet || network == Network::Regtest || network == Network::Signet
    } else if address.network == Network::Testnet {
        network == Network::Testnet || network == Network::Signet
    } else {
        address.network == network
    }
}

/// Whether `address` may receive a peg-out when the federation runs `network`.
pub fn is_address_valid_for_network(address: &Address, network: Network) -> (r: bool)
    ensures
        r == spec_address_valid_for_network(*address, network),
{
    match (address.network, address.address_type) {
        (Network::Testnet, Some(AddressType::P2pkh)) => {
            matches!(network, Network::Testnet | Network::Regtest | Network::Signet)
        },
        (Network::Testnet, Some(AddressType::P2sh)) => {
            matches!(network, Network::Testnet | Network::Regtest | Network::Signet)
        },
        (Network::Testnet, _) => {
            matches!(network, Network::Testnet | Network::Signet)
        },
        (addr_net, _) => {
            matches!((addr_net, network),
                (Network::Bitcoin, Network::Bitcoin)
                | (Network::Testnet, Network::Testnet)
                | (Network::Signet, Network::Signet)
                | (Network::Regtest, Network::Regtest))
        },
    }
}

} // verus!
