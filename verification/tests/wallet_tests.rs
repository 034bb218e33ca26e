//! Peg-in claiming, peg-out validation and building, chain following and the
//! audit, on concrete scenarios.
use minimint_wallet::Address;
use minimint_wallet::BlockInfo;
use minimint_wallet::Feerate;
use minimint_wallet::Network;
use minimint_wallet::OutPoint;
use minimint_wallet::PegInProof;
use minimint_wallet::PegOut;
use minimint_wallet::PegOutFees;
use minimint_wallet::RoundConsensus;
use minimint_wallet::SpendableUTXO;
use minimint_wallet::WalletError;
use minimint_wallet::builder::StatelessWallet;
use minimint_wallet::config::WalletConfig;
use minimint_wallet::frost::simulate_keygen;
use minimint_wallet::wallet::Wallet;

use bitcoin::hashes::Hash as BitcoinHash;

const DESC: &str = "wpkh(0279BE667EF9DCBBAC55A06295CE870B07029BFCDB2DCE28D959F2815B16F81798)";
const KEY33: &str = "0279BE667EF9DCBBAC55A06295CE870B07029BFCDB2DCE28D959F2815B16F81798";

fn test_wallet() -> Wallet {
    let seed = vec![7u8; 32];
    let (frost_key, mut shares) = simulate_keygen(3, 5, &seed).unwrap();
    let cfg = WalletConfig {
        network: Network::Bitcoin,
        peg_in_descriptor: DESC.to_string(),
        peer_id: 0,
        finality_delay: 10,
        default_fee: Feerate { sats_per_kvb: 2000 },
        threshold: 3,
        frost_key,
        peg_in_key: shares.remove(0),
    };
    Wallet::new(cfg)
}

fn key33_bytes() -> Vec<u8> {
    let mut out = Vec::new();
    let chars: Vec<u8> = KEY33.bytes().collect();
    let hexval = |c: u8| -> u8 {
        match c {
            b'0'..=b'9' => c - b'0',
            b'a'..=b'f' => c - b'a' + 10,
            b'A'..=b'F' => c - b'A' + 10,
            _ => panic!("not hex"),
        }
    };
    let mut i = 0;
    while i < chars.len() {
        out.push(hexval(chars[i]) * 16 + hexval(chars[i + 1]));
        i += 2;
    }
    out
}

#[test]
fn s1_peg_in_claim_and_audit() {
    let mut w = test_wallet();
    let block_hash = vec![0xabu8; 32];
    w.db.block_hashes.push(block_hash.clone());
    let key = key33_bytes();
    let script = w.offline_wallet().derive_script(&key).unwrap();
    let proof = PegInProof {
        block_hash: block_hash.clone(),
        outpoint: OutPoint { txid: vec![0x11u8; 32], vout: 0 },
        tx_output: minimint_wallet::TxOutput { value: 100_000, script_pubkey: script },
        tweak_contract_key: key.clone(),
    };
    let meta = w.apply_input(&proof).unwrap();
    assert_eq!(meta.amount_msat, 100_000_000);
    assert_eq!(meta.pub_keys, vec![key.clone()]);
    assert_eq!(w.db.utxos.len(), 1);
    assert_eq!(w.db.utxos[0].0.txid, vec![0x11u8; 32]);
    assert_eq!(w.db.utxos[0].1.amount, 100_000);
    assert_eq!(w.db.utxos[0].1.tweak, key);
    // the audit reports the claimed value in millisatoshi
    assert_eq!(w.audit(), vec![100_000_000i64]);
    // a second claim of the same outpoint is refused
    assert_eq!(w.apply_input(&proof), Err(WalletError::PegInAlreadyClaimed));
    // a proof against an unknown block is refused
    let bad = PegInProof { block_hash: vec![0xcdu8; 32], ..proof.clone() };
    assert!(matches!(w.apply_input(&bad), Err(WalletError::UnknownPegInProofBlock(_))));
}

fn add_utxo(w: &mut Wallet, txid_byte: u8, amount: u64) {
    w.db.utxos.push((
        OutPoint { txid: vec![txid_byte; 32], vout: 0 },
        SpendableUTXO { tweak: vec![txid_byte; 32], amount },
    ));
}

#[test]
fn s3_fee_rate_floor() {
    let mut w = test_wallet();
    w.db.round_consensus = Some(RoundConsensus {
        block_height: 100,
        fee_rate: Feerate { sats_per_kvb: 1800 },
        randomness_beacon: vec![9u8; 32],
    });
    add_utxo(&mut w, 1, 1_000_000);
    let dest = w.offline_wallet().derive_script(&vec![5u8; 32]).unwrap();
    let peg_out = PegOut {
        recipient: Address { network: Network::Bitcoin, address_type: None, script_pubkey: dest },
        amount: 10_000,
        fees: PegOutFees { fee_rate: Feerate { sats_per_kvb: 1500 }, total_weight: 0 },
    };
    let before = w.db.utxos.clone();
    assert_eq!(
        w.validate_output(&peg_out),
        Err(WalletError::PegOutFeeRate(
            Feerate { sats_per_kvb: 1500 },
            Feerate { sats_per_kvb: 1800 },
        ))
    );
    // no state mutation
    assert_eq!(w.db.utxos, before);
    assert_eq!(w.db.unsigned_transactions.len(), 0);
}

#[test]
fn s6_utxo_selection_largest_first() {
    // UTXOs [10k, 50k, 40k, 20k], target 55k: selection must take 50k then
    // 40k, selected = 90k, two inputs, two outputs, the change annotated with
    // the round's randomness beacon
    let beacon = vec![9u8; 32];
    let wallet = StatelessWallet { descriptor: DESC.to_string() };
    let utxos = vec![
        (OutPoint { txid: vec![1u8; 32], vout: 0 }, SpendableUTXO { tweak: vec![1u8; 32], amount: 10_000 }),
        (OutPoint { txid: vec![2u8; 32], vout: 0 }, SpendableUTXO { tweak: vec![2u8; 32], amount: 50_000 }),
        (OutPoint { txid: vec![3u8; 32], vout: 0 }, SpendableUTXO { tweak: vec![3u8; 32], amount: 40_000 }),
        (OutPoint { txid: vec![4u8; 32], vout: 0 }, SpendableUTXO { tweak: vec![4u8; 32], amount: 20_000 }),
    ];
    let dest = wallet.derive_script(&vec![5u8; 32]).unwrap();
    let fee_rate = Feerate { sats_per_kvb: 1000 };
    let tx = wallet.create_tx(55_000, dest.clone(), utxos, fee_rate, &beacon).unwrap();

    assert_eq!(tx.psbt.unsigned_tx.input.len(), 2);
    // largest first: 50k then 40k
    assert_eq!(tx.psbt.unsigned_tx.input[0].previous_output.txid, vec![2u8; 32]);
    assert_eq!(tx.psbt.unsigned_tx.input[1].previous_output.txid, vec![3u8; 32]);
    assert_eq!(tx.psbt.inputs[0].witness_utxo.value, 50_000);
    assert_eq!(tx.psbt.inputs[1].witness_utxo.value, 40_000);
    assert_eq!(tx.psbt.unsigned_tx.output.len(), 2);
    assert_eq!(tx.psbt.unsigned_tx.output[0].value, 55_000);
    assert_eq!(tx.psbt.unsigned_tx.output[0].script_pubkey, dest);
    // change output annotated with the beacon
    assert_eq!(tx.psbt.change_tweak, beacon);
    // selected == amount + fees + change, exactly (fee at 1000 sats/kvb is
    // the total weight in sats)
    let fees = fee_rate.sats_per_kvb * tx.fees.total_weight / 1000;
    assert_eq!(90_000, 55_000 + fees + tx.change);
    assert_eq!(tx.psbt.unsigned_tx.output[1].value, tx.change);
    // each input's signing metadata carries the spent UTXO's tweak and script
    assert_eq!(tx.psbt.inputs[0].tweak, vec![2u8; 32]);
    assert_eq!(
        tx.psbt.inputs[0].witness_utxo.script_pubkey,
        wallet.derive_script(&vec![2u8; 32]).unwrap(),
    );
    // insufficient UTXOs: asking for more than everything
    let utxos2 = vec![
        (OutPoint { txid: vec![1u8; 32], vout: 0 }, SpendableUTXO { tweak: vec![1u8; 32], amount: 10_000 }),
    ];
    assert!(wallet.create_tx(55_000, dest, utxos2, fee_rate, &beacon).is_none());
}

#[test]
fn apply_output_stores_row_under_real_txid() {
    let mut w = test_wallet();
    w.db.round_consensus = Some(RoundConsensus {
        block_height: 100,
        fee_rate: Feerate { sats_per_kvb: 1000 },
        randomness_beacon: vec![9u8; 32],
    });
    add_utxo(&mut w, 1, 1_000_000);
    let dest = w.offline_wallet().derive_script(&vec![5u8; 32]).unwrap();
    let peg_out = PegOut {
        recipient: Address { network: Network::Bitcoin, address_type: None, script_pubkey: dest },
        amount: 10_000,
        fees: PegOutFees { fee_rate: Feerate { sats_per_kvb: 1000 }, total_weight: 0 },
    };
    assert_eq!(w.apply_output(&peg_out), Ok(10_000));
    // the consumed UTXO is gone
    assert_eq!(w.db.utxos.len(), 0);
    assert_eq!(w.db.unsigned_transactions.len(), 1);
    assert_eq!(w.db.peg_out_nonce_ci.len(), 1);
    // one staged nonce per input
    assert_eq!(w.db.peg_out_nonce_ci[0].1.len(), w.db.unsigned_transactions[0].1.psbt.inputs.len());

    // the row key is the transaction's real id, recomputed here with bitcoin
    let row = &w.db.unsigned_transactions[0];
    let model = &row.1.psbt.unsigned_tx;
    let rebuilt = bitcoin::Transaction {
        version: model.version,
        lock_time: model.lock_time,
        input: model.input.iter().map(|i| bitcoin::TxIn {
            previous_output: bitcoin::OutPoint {
                txid: <bitcoin::Txid as bitcoin::hashes::Hash>::from_slice(
                    &i.previous_output.txid,
                ).unwrap(),
                vout: i.previous_output.vout,
            },
            script_sig: bitcoin::Script::new(),
            sequence: i.sequence,
            witness: bitcoin::Witness::from_vec(i.witness.clone()),
        }).collect(),
        output: model.output.iter().map(|o| bitcoin::TxOut {
            value: o.value,
            script_pubkey: bitcoin::Script::from(o.script_pubkey.clone()),
        }).collect(),
    };
    let expected: Vec<u8> = rebuilt.txid().as_hash().into_inner().to_vec();
    assert_eq!(row.0, expected);
}

#[test]
fn p3_sync_recognizes_change() {
    let mut w = test_wallet();
    w.db.round_consensus = Some(RoundConsensus {
        block_height: 100,
        fee_rate: Feerate { sats_per_kvb: 1000 },
        randomness_beacon: vec![9u8; 32],
    });
    // a pending transaction paying 7000 sats back to the tweaked federation
    // script
    let tweak = vec![9u8; 32];
    let change_script = w.offline_wallet().derive_script(&tweak).unwrap();
    let ptxid = vec![0x77u8; 32];
    let pending = minimint_wallet::PendingTransaction {
        tx: minimint_wallet::TransactionData {
            version: 2,
            lock_time: 0,
            input: vec![],
            output: vec![
                minimint_wallet::TxOutput { value: 1000, script_pubkey: vec![0xaa, 0xbb] },
                minimint_wallet::TxOutput { value: 7000, script_pubkey: change_script },
            ],
        },
        tweak: tweak.clone(),
        change: 7000,
    };
    w.db.pending_transactions.push((ptxid.clone(), pending));

    // a block at height 101..=102 confirms it
    let blocks = vec![
        BlockInfo { hash: vec![0x51u8; 32], txids: vec![] },
        BlockInfo { hash: vec![0x52u8; 32], txids: vec![ptxid.clone()] },
    ];
    w.sync_up_to_consensus_height(102, &blocks);
    // block hashes recorded in order
    assert_eq!(w.db.block_hashes, vec![vec![0x51u8; 32], vec![0x52u8; 32]]);
    // the change output is spendable again, under the stored tweak
    assert_eq!(w.db.utxos.len(), 1);
    assert_eq!(w.db.utxos[0].0.txid, ptxid);
    assert_eq!(w.db.utxos[0].0.vout, 1);
    assert_eq!(w.db.utxos[0].1.amount, 7000);
    assert_eq!(w.db.utxos[0].1.tweak, tweak);
    // the pending row itself stays; broadcasting is idempotent
    assert_eq!(w.db.pending_transactions.len(), 1);
    // a non-growing height is a no-op
    let before_hashes = w.db.block_hashes.clone();
    w.sync_up_to_consensus_height(102, &vec![]);
    assert_eq!(w.db.block_hashes, before_hashes);
}

#[test]
fn peg_out_fees_dry_run() {
    let mut w = test_wallet();
    w.db.round_consensus = Some(RoundConsensus {
        block_height: 100,
        fee_rate: Feerate { sats_per_kvb: 1000 },
        randomness_beacon: vec![9u8; 32],
    });
    add_utxo(&mut w, 1, 1_000_000);
    let dest = w.offline_wallet().derive_script(&vec![5u8; 32]).unwrap();
    let fees = w.peg_out_fees(&dest, 10_000).unwrap();
    assert_eq!(fees.fee_rate.sats_per_kvb, 1000);
    assert!(fees.total_weight > 0);
    // not enough UTXOs: no estimate
    assert!(w.peg_out_fees(&dest, 2_000_000).is_none());
}
