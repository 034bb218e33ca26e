//! The wallet module's facade: peg-in validation and claiming, peg-out
//! validation and application, per-round proposal assembly, the round
//! aggregation arithmetic, and the audit sums. Every function is a
//! deterministic function of the configuration, the store snapshot and its
//! arguments.
use vstd::prelude::*;

use crate::builder::StatelessWallet;
use crate::builder::spec_create_tx_ok;
use crate::builder::spec_selection;
use crate::config::WalletConfig;
use crate::consensus::bytes_views;
use crate::consensus::median_u64;
use crate::consensus::spec_median_u64;
use crate::consensus::spec_xor_fold;
use crate::consensus::xor_fold_contributions;
use crate::db::WalletDb;
use crate::db::alist_has_key;
use crate::db::clone_bytes;
use crate::db::hashes_contain;
use crate::db::hashes_find;
use crate::db::utxo_views;
use crate::db::utxos_find;
use crate::db::utxos_have_key;
use crate::frost::fresh_random_bytes32;
use crate::tweak::tweaked_script_of;
use crate::types::Feerate;
use crate::types::FrostNonce;
use crate::types::FrostSigShare;
use crate::types::InputMeta;
use crate::types::OutPoint;
use crate::types::PegInProof;
use crate::types::PegOut;
use crate::types::PegOutFees;
use crate::types::PegOutNonceItem;
use crate::types::PegOutSignatureItem;
use crate::types::RoundConsensus;
use crate::types::RoundConsensusItem;
use crate::types::SpendableUTXO;
use crate::types::UnsignedTransaction;
use crate::types::WalletConsensusItem;
use crate::types::WalletError;
use crate::types::is_address_valid_for_network;
use crate::types::spec_address_valid_for_network;

verus! {

/// How many blocks a fee estimate aims to confirm within.
pub const CONFIRMATION_TARGET: u16 = 10;

/// The federated wallet: configuration plus the store snapshot the consensus
/// callbacks operate on.
pub struct Wallet {
    pub cfg: WalletConfig,
    pub db: WalletDb,
}

/// The views of this peer's staged signature shares.
pub open spec fn share_views(s: Seq<FrostSigShare>) -> Seq<Seq<u8>> {
    s.map_values(|x: FrostSigShare| x.0@)
}

/// The views of this peer's staged nonces.
pub open spec fn nonce_views(s: Seq<FrostNonce>) -> Seq<Seq<u8>> {
    s.map_values(|x: FrostNonce| x.0@)
}

/// Total UTXO value, in satoshis, as an unbounded integer.
pub open spec fn spec_utxo_sum(s: Seq<crate::db::UtxoEntryV>) -> int
    decreases s.len(),
{
    if s.len() == 0 {
        0
    } else {
        spec_utxo_sum(s.drop_last()) + s.last().amount
    }
}

impl Wallet {
    /// A wallet over an empty store.
    pub fn new(cfg: WalletConfig) -> (r: Wallet)
        ensures
            r.db.wf(),
            r.db.round_consensus.is_none(),
    {
        Wallet { cfg, db: WalletDb::new() }
    }

    /// The stateless transaction builder for this federation's descriptor.
    pub fn offline_wallet(&self) -> (r: StatelessWallet)
        ensures
            r.descriptor == self.cfg.peg_in_descriptor,
    {
        StatelessWallet { descriptor: self.cfg.peg_in_descriptor.clone() }
    }

    /// The round consensus currently in force, if any epoch has set one.
    pub fn current_round_consensus(&self) -> (r: &Option<RoundConsensus>)
        ensures
            *r == self.db.round_consensus,
    {
        &self.db.round_consensus
    }

    /// The consensus block height, if any.
    pub fn consensus_height(&self) -> (r: Option<u32>)
        ensures
            match self.db.round_consensus {
                Some(rc) => r == Some(rc.block_height),
                None => r.is_none(),
            },
    {
        match &self.db.round_consensus {
            Some(rc) => Some(rc.block_height),
            None => None,
        }
    }

    /// The height this peer proposes given its chain tip: the tip minus the
    /// finality delay, never below zero.
    pub fn target_height(&self, our_network_height: u32) -> (r: u32)
        ensures
            r == if our_network_height >= self.cfg.finality_delay {
                (our_network_height - self.cfg.finality_delay) as u32
            } else {
                0u32
            },
    {
        if our_network_height >= self.cfg.finality_delay {
            our_network_height - self.cfg.finality_delay
        } else {
            0
        }
    }

    /// Whether the federation has agreed on this block hash.
    pub fn block_is_known(&self, block_hash: &Vec<u8>) -> (r: bool)
        ensures
            r == hashes_contain(self.db.block_hashes@, block_hash@),
    {
        hashes_find(&self.db.block_hashes, block_hash)
    }

    /// A copy of the spendable UTXO table.
    pub fn available_utxos(&self) -> (r: Vec<(OutPoint, SpendableUTXO)>)
        ensures
            utxo_views(r@) == utxo_views(self.db.utxos@),
    {
        crate::db::clone_utxos(&self.db.utxos)
    }

    /// Total value held, in satoshis.
    #[verifier::loop_isolation(false)]
    pub fn get_wallet_value(&self) -> (r: u64)
        requires
            spec_utxo_sum(utxo_views(self.db.utxos@)) <= u64::MAX,
        ensures
            r == spec_utxo_sum(utxo_views(self.db.utxos@)),
    {
        let ghost views = utxo_views(self.db.utxos@);
        let mut sum: u64 = 0;
        let mut i: usize = 0;
        proof {
            assert(views.subrange(0, 0) =~= Seq::<crate::db::UtxoEntryV>::empty());
            crate::wallet::lemma_utxo_sum_prefix(views, 0);
        }
        while i < self.db.utxos.len()
            invariant
                i <= self.db.utxos@.len(),
                views == utxo_views(self.db.utxos@),
                sum == spec_utxo_sum(views.subrange(0, i as int)),
                spec_utxo_sum(views) <= u64::MAX,
            decreases self.db.utxos@.len() - i,
        {
            proof {
                lemma_utxo_sum_prefix(views, i as int + 1);
                assert(views.subrange(0, i as int + 1).drop_last() =~= views.subrange(0, i as int));
                assert(views.subrange(0, i as int + 1).last() == views[i as int]);
                assert(views[i as int] == crate::db::utxo_view(self.db.utxos@[i as int]));
            }
            sum = sum + self.db.utxos[i].1.amount;
            i += 1;
        }
        proof {
            assert(views.subrange(0, i as int) =~= views);
        }
        sum
    }

    /// XOR-fold the peers' randomness contributions into the beacon.
    pub fn process_randomness_contributions(&self, randomness: &Vec<Vec<u8>>) -> (r: Vec<u8>)
        requires
            forall|i: int| 0 <= i < randomness@.len() ==> (#[trigger] randomness@[i])@.len() == 32,
        ensures
            r@ == spec_xor_fold(bytes_views(randomness@)),
            r@.len() == 32,
    {
        xor_fold_contributions(randomness)
    }

    /// The fee rate a round agrees on: the median of the proposals.
    #[verifier::loop_isolation(false)]
    pub fn process_fee_proposals(&self, proposals: Vec<Feerate>) -> (r: Feerate)
        requires
            proposals@.len() > 0,
        ensures
            r.sats_per_kvb == spec_median_u64(
                proposals@.map_values(|f: Feerate| f.sats_per_kvb),
            ),
    {
        let ghost rates = proposals@.map_values(|f: Feerate| f.sats_per_kvb);
        let mut values: Vec<u64> = Vec::new();
        let mut i: usize = 0;
        while i < proposals.len()
            invariant
                i <= proposals@.len(),
                values@.len() == i,
                forall|j: int| 0 <= j < i ==> values@[j] == rates[j],
            decreases proposals@.len() - i,
        {
            proof {
                assert(rates[i as int] == proposals@[i as int].sats_per_kvb);
            }
            values.push(proposals[i].sats_per_kvb);
            i += 1;
        }
        proof {
            assert(values@ =~= rates);
        }
        Feerate { sats_per_kvb: median_u64(values) }
    }

    /// The block height a round agrees on: the median of the proposals. The
    /// caller must have ruled a shrinking median out; a regression would break
    /// the federation.
    #[verifier::loop_isolation(false)]
    pub fn process_block_height_proposals(&self, proposals: Vec<u32>) -> (r: u32)
        requires
            proposals@.len() > 0,
            spec_median_u64(proposals@.map_values(|h: u32| h as u64)) >= (match self.db.round_consensus {
                Some(rc) => rc.block_height as int,
                None => 0int,
            }),
        ensures
            r as u64 == spec_median_u64(proposals@.map_values(|h: u32| h as u64)),
            r >= (match self.db.round_consensus {
                Some(rc) => rc.block_height as int,
                None => 0int,
            }),
    {
        let ghost heights = proposals@.map_values(|h: u32| h as u64);
        let mut values: Vec<u64> = Vec::new();
        let mut i: usize = 0;
        while i < proposals.len()
            invariant
                i <= proposals@.len(),
                values@.len() == i,
                forall|j: int| 0 <= j < i ==> values@[j] == heights[j],
                forall|j: int| 0 <= j < i ==> values@[j] <= u32::MAX,
            decreases proposals@.len() - i,
        {
            proof {
                assert(heights[i as int] == proposals@[i as int] as u64);
            }
            values.push(proposals[i] as u64);
            i += 1;
        }
        proof {
            assert(values@ =~= heights);
        }
        let ghost vals = values@;
        let m = median_u64(values);
        proof {
            let k = choose|k: int| 0 <= k < vals.len() && vals[k] == m;
            assert(m <= u32::MAX);
        }
        m as u32
    }

    /// Validate a peg-in proof against the agreed chain: its block must be
    /// known and its outpoint unclaimed; a valid proof is worth its output's
    /// value (in millisatoshi) to the host, signed under the tweaked contract
    /// key.
    pub fn validate_input(&self, input: &PegInProof) -> (r: Result<InputMeta, WalletError>)
        requires
            input.tx_output.value * 1000 <= u64::MAX,
        ensures
            !hashes_contain(self.db.block_hashes@, input.block_hash@) ==> (r matches Err(e)
                && e matches WalletError::UnknownPegInProofBlock(h) && h@ == input.block_hash@),
            hashes_contain(self.db.block_hashes@, input.block_hash@) && utxos_have_key(
                self.db.utxos@,
                input.outpoint.txid@,
                input.outpoint.vout,
            ) ==> r == Err::<InputMeta, WalletError>(WalletError::PegInAlreadyClaimed),
            hashes_contain(self.db.block_hashes@, input.block_hash@) && !utxos_have_key(
                self.db.utxos@,
                input.outpoint.txid@,
                input.outpoint.vout,
            ) ==> (r matches Ok(meta) && meta.amount_msat == input.tx_output.value * 1000
                && meta.pub_keys@.len() == 1 && meta.pub_keys@[0]@ == input.tweak_contract_key@),
    {
        if !self.block_is_known(&input.block_hash) {
            return Err(WalletError::UnknownPegInProofBlock(clone_bytes(&input.block_hash)));
        }
        if utxos_find(&self.db.utxos, &input.outpoint.txid, input.outpoint.vout).is_some() {
            return Err(WalletError::PegInAlreadyClaimed);
        }
        let mut pub_keys: Vec<Vec<u8>> = Vec::new();
        pub_keys.push(clone_bytes(&input.tweak_contract_key));
        Ok(InputMeta { amount_msat: input.tx_output.value * 1000, pub_keys })
    }

    /// Validate and claim a peg-in: on success the outpoint becomes a
    /// spendable UTXO whose tweak is the serialized contract key.
    pub fn apply_input(&mut self, input: &PegInProof) -> (r: Result<InputMeta, WalletError>)
        requires
            old(self).db.wf(),
            input.tx_output.value * 1000 <= u64::MAX,
            input.outpoint.txid@.len() == 32,
        ensures
            final(self).db.wf(),
            final(self).cfg == old(self).cfg,
            r.is_err() ==> final(self).db == old(self).db,
            !hashes_contain(old(self).db.block_hashes@, input.block_hash@) ==> (r matches Err(e)
                && e matches WalletError::UnknownPegInProofBlock(h) && h@ == input.block_hash@),
            hashes_contain(old(self).db.block_hashes@, input.block_hash@) && utxos_have_key(
                old(self).db.utxos@,
                input.outpoint.txid@,
                input.outpoint.vout,
            ) ==> r == Err::<InputMeta, WalletError>(WalletError::PegInAlreadyClaimed),
            r.is_ok() ==> {
                &&& final(self).db.utxos@.len() == old(self).db.utxos@.len() + 1
                &&& (forall|j: int| 0 <= j < old(self).db.utxos@.len()
                    ==> final(self).db.utxos@[j] == old(self).db.utxos@[j])
                &&& final(self).db.utxos@.last().0.txid@ == input.outpoint.txid@
                &&& final(self).db.utxos@.last().0.vout == input.outpoint.vout
                &&& final(self).db.utxos@.last().1.tweak@ == input.tweak_contract_key@
                &&& final(self).db.utxos@.last().1.amount == input.tx_output.value
                &&& final(self).db.block_hashes == old(self).db.block_hashes
                &&& final(self).db.round_consensus == old(self).db.round_consensus
                &&& final(self).db.unsigned_transactions == old(self).db.unsigned_transactions
                &&& final(self).db.pending_transactions == old(self).db.pending_transactions
                &&& final(self).db.peg_out_signature_ci == old(self).db.peg_out_signature_ci
                &&& final(self).db.peg_out_nonce_ci == old(self).db.peg_out_nonce_ci
            },
            r.is_ok() == (hashes_contain(old(self).db.block_hashes@, input.block_hash@)
                && !utxos_have_key(old(self).db.utxos@, input.outpoint.txid@, input.outpoint.vout)),
            r matches Ok(meta) ==> meta.amount_msat == input.tx_output.value * 1000
                && meta.pub_keys@.len() == 1 && meta.pub_keys@[0]@ == input.tweak_contract_key@,
    {
        let meta = match self.validate_input(input) {
            Ok(m) => m,
            Err(e) => {
                return Err(e);
            },
        };
        let outpoint = OutPoint {
            txid: clone_bytes(&input.outpoint.txid),
            vout: input.outpoint.vout,
        };
        let utxo = SpendableUTXO {
            tweak: clone_bytes(&input.tweak_contract_key),
            amount: input.tx_output.value,
        };
        self.db.utxos.push((outpoint, utxo));
        Ok(meta)
    }

    /// Build the peg-out transaction the request asks for, spending the
    /// current UTXO set with the round's randomness beacon as the change
    /// tweak.
    pub fn create_peg_out_tx(&self, peg_out: &PegOut) -> (r: Option<UnsignedTransaction>)
        requires
            self.db.wf(),
            self.db.round_consensus.is_some(),
        ensures
            r.is_some() == spec_create_tx_ok(
                self.cfg.peg_in_descriptor@,
                peg_out.amount,
                peg_out.recipient.script_pubkey@,
                utxo_views(self.db.utxos@),
                peg_out.fees.fee_rate,
                self.db.round_consensus.unwrap().randomness_beacon@,
            ),
            r.is_some() ==> crate::tweak::tx_prevouts_wf(r.unwrap().psbt.unsigned_tx),
            r.is_some() ==> ({
                let desc = self.cfg.peg_in_descriptor@;
                let beacon = self.db.round_consensus.unwrap().randomness_beacon@;
                let change_script = tweaked_script_of(desc, beacon).unwrap();
                let (sel, value, weight) = spec_selection(
                    desc,
                    peg_out.amount,
                    peg_out.recipient.script_pubkey@,
                    utxo_views(self.db.utxos@),
                    peg_out.fees.fee_rate,
                    beacon,
                ).unwrap();
                let tx = r.unwrap();
                let fees = crate::types::spec_fee(peg_out.fees.fee_rate.sats_per_kvb as int, weight);
                &&& tx.fees == (PegOutFees {
                    fee_rate: peg_out.fees.fee_rate,
                    total_weight: weight as u64,
                })
                &&& tx.change == value - fees - peg_out.amount
                &&& tx.nonces@.len() == 0
                &&& tx.signatures@.len() == 0
                &&& tx.psbt.change_tweak@ == beacon
                &&& tx.psbt.unsigned_tx.version == 2
                &&& tx.psbt.unsigned_tx.lock_time == 0
                &&& tx.psbt.unsigned_tx.input@.len() == sel.len()
                &&& tx.psbt.inputs@.len() == sel.len()
                &&& tx.psbt.unsigned_tx.output@.len() == 2
                &&& tx.psbt.unsigned_tx.output@[0].value == peg_out.amount
                &&& tx.psbt.unsigned_tx.output@[0].script_pubkey@ == peg_out.recipient.script_pubkey@
                &&& tx.psbt.unsigned_tx.output@[1].value == tx.change
                &&& tx.psbt.unsigned_tx.output@[1].script_pubkey@ == change_script
                &&& (forall|i: int| 0 <= i < sel.len() ==> {
                    &&& (#[trigger] tx.psbt.unsigned_tx.input@[i]).previous_output.txid@ == sel[i].txid
                    &&& tx.psbt.unsigned_tx.input@[i].previous_output.vout == sel[i].vout
                    &&& tx.psbt.unsigned_tx.input@[i].sequence == 0xFFFFFFFFu32
                    &&& tx.psbt.unsigned_tx.input@[i].witness@.len() == 0
                    &&& tx.psbt.inputs@[i].tweak@ == sel[i].tweak
                    &&& tx.psbt.inputs@[i].witness_utxo.value == sel[i].amount
                    &&& tx.psbt.inputs@[i].witness_utxo.script_pubkey@ == tweaked_script_of(
                        desc,
                        sel[i].tweak,
                    ).unwrap()
                })
            }),
    {
        let change_tweak = match &self.db.round_consensus {
            Some(rc) => clone_bytes(&rc.randomness_beacon),
            None => {
                return None;
            },
        };
        let wallet = self.offline_wallet();
        let utxos = self.available_utxos();
        proof {
            assert forall|i: int| 0 <= i < utxos@.len() implies (#[trigger] utxos@[i]).0.txid@.len()
                == 32 by {
                assert(crate::db::utxo_view(utxos@[i]) == utxo_views(utxos@)[i]);
                assert(utxo_views(self.db.utxos@)[i] == crate::db::utxo_view(self.db.utxos@[i]));
            }
        }
        wallet.create_tx(
            peg_out.amount,
            clone_bytes(&peg_out.recipient.script_pubkey),
            utxos,
            peg_out.fees.fee_rate,
            &change_tweak,
        )
    }

    /// Validate a peg-out request: the recipient must fit the federation's
    /// network, the offered fee rate must reach the round's consensus rate,
    /// and the current UTXO set must cover amount, dust and fees. Returns the
    /// requested amount on success.
    pub fn validate_output(&self, output: &PegOut) -> (r: Result<u64, WalletError>)
        requires
            self.db.wf(),
            self.db.round_consensus.is_some(),
        ensures
            !spec_address_valid_for_network(output.recipient, self.cfg.network) ==> r == Err::<
                u64,
                WalletError,
            >(WalletError::WrongNetwork(self.cfg.network, output.recipient.network)),
            spec_address_valid_for_network(output.recipient, self.cfg.network)
                && output.fees.fee_rate.sats_per_kvb
                < self.db.round_consensus.unwrap().fee_rate.sats_per_kvb ==> r == Err::<
                u64,
                WalletError,
            >(WalletError::PegOutFeeRate(
                output.fees.fee_rate,
                self.db.round_consensus.unwrap().fee_rate,
            )),
            spec_address_valid_for_network(output.recipient, self.cfg.network)
                && output.fees.fee_rate.sats_per_kvb
                >= self.db.round_consensus.unwrap().fee_rate.sats_per_kvb
                && !spec_create_tx_ok(
                self.cfg.peg_in_descriptor@,
                output.amount,
                output.recipient.script_pubkey@,
                utxo_views(self.db.utxos@),
                output.fees.fee_rate,
                self.db.round_consensus.unwrap().randomness_beacon@,
            ) ==> r == Err::<u64, WalletError>(WalletError::NotEnoughSpendableUTXO),
            (r matches Ok(a)) == (spec_address_valid_for_network(output.recipient, self.cfg.network)
                && output.fees.fee_rate.sats_per_kvb
                >= self.db.round_consensus.unwrap().fee_rate.sats_per_kvb && spec_create_tx_ok(
                self.cfg.peg_in_descriptor@,
                output.amount,
                output.recipient.script_pubkey@,
                utxo_views(self.db.utxos@),
                output.fees.fee_rate,
                self.db.round_consensus.unwrap().randomness_beacon@,
            )),
            r matches Ok(a) ==> a == output.amount,
    {
        if !is_address_valid_for_network(&output.recipient, self.cfg.network) {
            return Err(WalletError::WrongNetwork(self.cfg.network, output.recipient.network));
        }
        let consensus_fee_rate = match &self.db.round_consensus {
            Some(rc) => rc.fee_rate,
            None => {
                return Err(WalletError::NotEnoughSpendableUTXO);
            },
        };
        if output.fees.fee_rate.sats_per_kvb < consensus_fee_rate.sats_per_kvb {
            return Err(WalletError::PegOutFeeRate(output.fees.fee_rate, consensus_fee_rate));
        }
        if self.create_peg_out_tx(output).is_none() {
            return Err(WalletError::NotEnoughSpendableUTXO);
        }
        Ok(output.amount)
    }

    /// The fee estimate the peg-out API returns: a dry run of the builder over
    /// the current UTXO set; `None` when the UTXOs do not suffice.
    pub fn peg_out_fees(&self, recipient_script: &Vec<u8>, sats: u64) -> (r: Option<PegOutFees>)
        requires
            self.db.wf(),
            self.db.round_consensus.is_some(),
        ensures
            r.is_some() == spec_create_tx_ok(
                self.cfg.peg_in_descriptor@,
                sats,
                recipient_script@,
                utxo_views(self.db.utxos@),
                self.db.round_consensus.unwrap().fee_rate,
                self.db.round_consensus.unwrap().randomness_beacon@,
            ),
            r.is_some() ==> r.unwrap() == (PegOutFees {
                fee_rate: self.db.round_consensus.unwrap().fee_rate,
                total_weight: spec_selection(
                    self.cfg.peg_in_descriptor@,
                    sats,
                    recipient_script@,
                    utxo_views(self.db.utxos@),
                    self.db.round_consensus.unwrap().fee_rate,
                    self.db.round_consensus.unwrap().randomness_beacon@,
                ).unwrap().2 as u64,
            }),
    {
        let (fee_rate, change_tweak) = match &self.db.round_consensus {
            Some(rc) => (rc.fee_rate, clone_bytes(&rc.randomness_beacon)),
            None => {
                return None;
            },
        };
        let wallet = self.offline_wallet();
        let utxos = self.available_utxos();
        proof {
            assert forall|i: int| 0 <= i < utxos@.len() implies (#[trigger] utxos@[i]).0.txid@.len()
                == 32 by {
                assert(crate::db::utxo_view(utxos@[i]) == utxo_views(utxos@)[i]);
                assert(utxo_views(self.db.utxos@)[i] == crate::db::utxo_view(self.db.utxos@[i]));
            }
        }
        match wallet.create_tx(sats, clone_bytes(recipient_script), utxos, fee_rate, &change_tweak) {
            Some(tx) => Some(tx.fees),
            None => None,
        }
    }

    /// The audit of what the module holds and owes, in millisatoshi: one entry
    /// per UTXO (assets) and per unsigned and pending transaction's change.
    #[verifier::loop_isolation(false)]
    pub fn audit(&self) -> (r: Vec<i64>)
        requires
            forall|i: int| 0 <= i < self.db.utxos@.len()
                ==> (#[trigger] self.db.utxos@[i]).1.amount * 1000 <= i64::MAX,
            forall|i: int| 0 <= i < self.db.unsigned_transactions@.len()
                ==> (#[trigger] self.db.unsigned_transactions@[i]).1.change * 1000 <= i64::MAX,
            forall|i: int| 0 <= i < self.db.pending_transactions@.len()
                ==> (#[trigger] self.db.pending_transactions@[i]).1.change * 1000 <= i64::MAX,
        ensures
            r@.len() == self.db.utxos@.len() + self.db.unsigned_transactions@.len()
                + self.db.pending_transactions@.len(),
            forall|i: int| 0 <= i < self.db.utxos@.len()
                ==> r@[i] == (#[trigger] self.db.utxos@[i]).1.amount * 1000,
            forall|i: int| 0 <= i < self.db.unsigned_transactions@.len()
                ==> r@[self.db.utxos@.len() + i] == (#[trigger] self.db.unsigned_transactions@[i]).1.change
                    * 1000,
            forall|i: int| 0 <= i < self.db.pending_transactions@.len()
                ==> r@[self.db.utxos@.len() + self.db.unsigned_transactions@.len() + i] == (
                #[trigger] self.db.pending_transactions@[i]).1.change * 1000,
    {
        let mut items: Vec<i64> = Vec::new();
        let mut i: usize = 0;
        while i < self.db.utxos.len()
            invariant
                i <= self.db.utxos@.len(),
                items@.len() == i,
                forall|j: int| 0 <= j < i ==> items@[j] == (#[trigger] self.db.utxos@[j]).1.amount
                    * 1000,
                forall|j: int| 0 <= j < self.db.utxos@.len()
                    ==> (#[trigger] self.db.utxos@[j]).1.amount * 1000 <= i64::MAX,
            decreases self.db.utxos@.len() - i,
        {
            items.push((self.db.utxos[i].1.amount * 1000) as i64);
            i += 1;
        }
        let base1 = items.len();
        let mut i: usize = 0;
        while i < self.db.unsigned_transactions.len()
            invariant
                i <= self.db.unsigned_transactions@.len(),
                items@.len() == base1 + i,
                base1 == self.db.utxos@.len(),
                forall|j: int| 0 <= j < base1 ==> items@[j] == (#[trigger] self.db.utxos@[j]).1.amount
                    * 1000,
                forall|j: int| 0 <= j < i ==> items@[base1 + j] == (
                #[trigger] self.db.unsigned_transactions@[j]).1.change * 1000,
                forall|j: int| 0 <= j < self.db.unsigned_transactions@.len()
                    ==> (#[trigger] self.db.unsigned_transactions@[j]).1.change * 1000 <= i64::MAX,
            decreases self.db.unsigned_transactions@.len() - i,
        {
            items.push((self.db.unsigned_transactions[i].1.change * 1000) as i64);
            i += 1;
        }
        let base2 = items.len();
        let mut i: usize = 0;
        while i < self.db.pending_transactions.len()
            invariant
                i <= self.db.pending_transactions@.len(),
                items@.len() == base2 + i,
                base1 == self.db.utxos@.len(),
                base2 == base1 + self.db.unsigned_transactions@.len(),
                forall|j: int| 0 <= j < base1 ==> items@[j] == (#[trigger] self.db.utxos@[j]).1.amount
                    * 1000,
                forall|j: int| 0 <= j < self.db.unsigned_transactions@.len()
                    ==> items@[base1 + j] == (#[trigger] self.db.unsigned_transactions@[j]).1.change
                        * 1000,
                forall|j: int| 0 <= j < i ==> items@[base2 + j] == (
                #[trigger] self.db.pending_transactions@[j]).1.change * 1000,
                forall|j: int| 0 <= j < self.db.pending_transactions@.len()
                    ==> (#[trigger] self.db.pending_transactions@[j]).1.change * 1000 <= i64::MAX,
            decreases self.db.pending_transactions@.len() - i,
        {
            items.push((self.db.pending_transactions[i].1.change * 1000) as i64);
            i += 1;
        }
        items
    }

    /// Assemble this round's proposals: every staged signature item, every
    /// staged nonce item, and exactly one round item carrying the proposed
    /// height (never below the last consensus height), the fee estimate (or
    /// the configured default) and fresh randomness.
    #[verifier::loop_isolation(false)]
    pub fn consensus_proposal(&self, our_target_height: u32, fee_rate: Option<Feerate>) -> (r: Vec<
        WalletConsensusItem,
    >)
        ensures
            ({
                let n_sigs = self.db.peg_out_signature_ci@.len();
                let n_nonces = self.db.peg_out_nonce_ci@.len();
                let last_height = match self.db.round_consensus {
                    Some(rc) => rc.block_height,
                    None => 0u32,
                };
                &&& r@.len() == n_sigs + n_nonces + 1
                &&& (forall|i: int| 0 <= i < n_sigs ==> ((#[trigger] r@[i])
                    matches WalletConsensusItem::PegOutSignature(it)
                    && it.txid@ == self.db.peg_out_signature_ci@[i].0@
                    && share_views(it.signatures@) == share_views(
                    self.db.peg_out_signature_ci@[i].1@,
                )))
                &&& (forall|i: int| 0 <= i < n_nonces ==> ((#[trigger] r@[n_sigs + i])
                    matches WalletConsensusItem::PegOutNonce(it)
                    && it.txid@ == self.db.peg_out_nonce_ci@[i].0@
                    && nonce_views(it.nonces@) == nonce_views(self.db.peg_out_nonce_ci@[i].1@)))
                &&& (r@.last() matches WalletConsensusItem::RoundConsensus(rc) && rc.block_height
                    == (if our_target_height >= last_height {
                    our_target_height
                } else {
                    last_height
                }) && rc.fee_rate == (match fee_rate {
                    Some(f) => f,
                    None => self.cfg.default_fee,
                }) && rc.randomness@.len() == 32)
            }),
    {
        let mut items: Vec<WalletConsensusItem> = Vec::new();
        let mut i: usize = 0;
        while i < self.db.peg_out_signature_ci.len()
            invariant
                i <= self.db.peg_out_signature_ci@.len(),
                items@.len() == i,
                forall|j: int| 0 <= j < i ==> ((#[trigger] items@[j])
                    matches WalletConsensusItem::PegOutSignature(it)
                    && it.txid@ == self.db.peg_out_signature_ci@[j].0@
                    && share_views(it.signatures@) == share_views(
                    self.db.peg_out_signature_ci@[j].1@,
                )),
            decreases self.db.peg_out_signature_ci@.len() - i,
        {
            let (key, shares) = (
                clone_bytes(&self.db.peg_out_signature_ci[i].0),
                clone_shares(&self.db.peg_out_signature_ci[i].1),
            );
            items.push(WalletConsensusItem::PegOutSignature(PegOutSignatureItem {
                txid: key,
                signatures: shares,
            }));
            i += 1;
        }
        let n_sigs = items.len();
        let mut i: usize = 0;
        while i < self.db.peg_out_nonce_ci.len()
            invariant
                i <= self.db.peg_out_nonce_ci@.len(),
                items@.len() == n_sigs + i,
                n_sigs == self.db.peg_out_signature_ci@.len(),
                forall|j: int| 0 <= j < n_sigs ==> ((#[trigger] items@[j])
                    matches WalletConsensusItem::PegOutSignature(it)
                    && it.txid@ == self.db.peg_out_signature_ci@[j].0@
                    && share_views(it.signatures@) == share_views(
                    self.db.peg_out_signature_ci@[j].1@,
                )),
                forall|j: int| 0 <= j < i ==> ((#[trigger] items@[n_sigs + j])
                    matches WalletConsensusItem::PegOutNonce(it)
                    && it.txid@ == self.db.peg_out_nonce_ci@[j].0@
                    && nonce_views(it.nonces@) == nonce_views(self.db.peg_out_nonce_ci@[j].1@)),
            decreases self.db.peg_out_nonce_ci@.len() - i,
        {
            let (key, nonces) = (
                clone_bytes(&self.db.peg_out_nonce_ci[i].0),
                clone_nonces(&self.db.peg_out_nonce_ci[i].1),
            );
            items.push(WalletConsensusItem::PegOutNonce(PegOutNonceItem { txid: key, nonces }));
            i += 1;
        }
        let last_consensus_height = match self.consensus_height() {
            Some(h) => h,
            None => 0,
        };
        let proposed_height = if our_target_height >= last_consensus_height {
            our_target_height
        } else {
            last_consensus_height
        };
        let fee = match fee_rate {
            Some(f) => f,
            None => self.cfg.default_fee,
        };
        items.push(WalletConsensusItem::RoundConsensus(RoundConsensusItem {
            block_height: proposed_height,
            fee_rate: fee,
            randomness: fresh_random_bytes32(),
        }));
        items
    }
}

/// A prefix sum over the UTXO views is defined for every prefix length.
pub proof fn lemma_utxo_sum_prefix(s: Seq<crate::db::UtxoEntryV>, n: int)
    requires
        0 <= n <= s.len(),
        spec_utxo_sum(s) <= u64::MAX,
    ensures
        0 <= spec_utxo_sum(s.subrange(0, n)) <= spec_utxo_sum(s),
    decreases s.len() - n,
{
    lemma_utxo_sum_nonneg(s.subrange(0, n));
    if n == s.len() {
        assert(s.subrange(0, n) =~= s);
    } else {
        lemma_utxo_sum_prefix(s, n + 1);
        assert(s.subrange(0, n + 1).drop_last() =~= s.subrange(0, n));
        assert(spec_utxo_sum(s.subrange(0, n + 1)) == spec_utxo_sum(s.subrange(0, n))
            + s.subrange(0, n + 1).last().amount);
    }
}

proof fn lemma_utxo_sum_nonneg(s: Seq<crate::db::UtxoEntryV>)
    ensures
        spec_utxo_sum(s) >= 0,
    decreases s.len(),
{
    if s.len() > 0 {
        lemma_utxo_sum_nonneg(s.drop_last());
    }
}

/// A by-value copy of a signature share list (same views).
pub fn clone_shares(v: &Vec<FrostSigShare>) -> (r: Vec<FrostSigShare>)
    ensures
        share_views(r@) == share_views(v@),
{
    let mut c: Vec<FrostSigShare> = Vec::new();
    let mut i: usize = 0;
    while i < v.len()
        invariant
            i <= v@.len(),
            c@.len() == i,
            forall|j: int| 0 <= j < i ==> (#[trigger] c@[j]).0@ == v@[j].0@,
        decreases v@.len() - i,
    {
        c.push(FrostSigShare(clone_bytes(&v[i].0)));
        i += 1;
    }
    proof {
        assert(share_views(c@) =~= share_views(v@));
    }
    c
}

/// A by-value copy of a nonce list (same views).
pub fn clone_nonces(v: &Vec<FrostNonce>) -> (r: Vec<FrostNonce>)
    ensures
        nonce_views(r@) == nonce_views(v@),
{
    let mut c: Vec<FrostNonce> = Vec::new();
    let mut i: usize = 0;
    while i < v.len()
        invariant
            i <= v@.len(),
            c@.len() == i,
            forall|j: int| 0 <= j < i ==> (#[trigger] c@[j]).0@ == v@[j].0@,
        decreases v@.len() - i,
    {
        c.push(FrostNonce(clone_bytes(&v[i].0)));
        i += 1;
    }
    proof {
        assert(nonce_views(c@) =~= nonce_views(v@));
    }
    c
}

} // verus!
