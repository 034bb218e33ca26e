//! The two-round FROST state machine, driven end to end with real keys:
//! threshold gating, misbehavior detection, and finalization into a
//! broadcast-ready transaction whose signature verifies.
use std::collections::BTreeMap;

use minimint_wallet::Address;
use minimint_wallet::Feerate;
use minimint_wallet::FrostSigShare;
use minimint_wallet::Network;
use minimint_wallet::OutPoint;
use minimint_wallet::PegOut;
use minimint_wallet::PegOutFees;
use minimint_wallet::PegOutNonceItem;
use minimint_wallet::PegOutSignatureItem;
use minimint_wallet::RoundConsensus;
use minimint_wallet::RoundConsensusItem;
use minimint_wallet::SpendableUTXO;
use minimint_wallet::WalletConsensusItem;
use minimint_wallet::config::WalletConfig;
use minimint_wallet::frost::simulate_keygen;
use minimint_wallet::wallet::Wallet;

use bitcoin::hashes::Hash as BitcoinHash;
use bitcoin::hashes::HashEngine;
use bitcoin::hashes::Hmac;
use bitcoin::hashes::HmacEngine;
use bitcoin::hashes::sha256;
use rand::SeedableRng;
use rand_chacha::ChaCha20Rng;
use schnorr_fun::Message;
use schnorr_fun::binonce::NonceKeyPair;
use schnorr_fun::frost::FrostKey;
use schnorr_fun::fun::Scalar;
use schnorr_fun::fun::marker::{Normal, Public, Secret, Zero};

const DESC: &str = "wpkh(0279BE667EF9DCBBAC55A06295CE870B07029BFCDB2DCE28D959F2815B16F81798)";
const SEED: [u8; 32] = [7u8; 32];

type TestShares = BTreeMap<Scalar<Public, schnorr_fun::fun::marker::NonZero>, Scalar>;

/// The same trusted-setup keys the library's `simulate_keygen` derives from
/// this seed.
fn reference_keygen() -> (FrostKey<Normal>, TestShares) {
    let frost = schnorr_fun::frost::new_with_deterministic_nonces::<sha2::Sha256>();
    let mut rng = ChaCha20Rng::from_seed(SEED);
    frost.simulate_keygen(3, 5, &mut rng)
}

fn party_index(peer: u16) -> Scalar<Public, schnorr_fun::fun::marker::NonZero> {
    Scalar::from_non_zero_u32(core::num::NonZeroU32::new(peer as u32 + 1).unwrap()).public()
}

fn test_wallet() -> Wallet {
    let (frost_key, mut shares) = simulate_keygen(3, 5, &vec![7u8; 32]).unwrap();
    let cfg = WalletConfig {
        network: Network::Bitcoin,
        peg_in_descriptor: DESC.to_string(),
        peer_id: 0,
        finality_delay: 10,
        default_fee: Feerate { sats_per_kvb: 2000 },
        threshold: 3,
        frost_key,
        peg_in_key: shares.remove(0),
    };
    Wallet::new(cfg)
}

fn round_item() -> (u16, WalletConsensusItem) {
    (0u16, WalletConsensusItem::RoundConsensus(RoundConsensusItem {
        block_height: 100,
        fee_rate: Feerate { sats_per_kvb: 1000 },
        randomness: vec![9u8; 32],
    }))
}

/// Queue a peg-out and return the stored transaction id.
fn queue_peg_out(w: &mut Wallet) -> Vec<u8> {
    w.db.round_consensus = Some(RoundConsensus {
        block_height: 100,
        fee_rate: Feerate { sats_per_kvb: 1000 },
        randomness_beacon: vec![9u8; 32],
    });
    w.db.utxos.push((
        OutPoint { txid: vec![1u8; 32], vout: 0 },
        SpendableUTXO { tweak: vec![1u8; 32], amount: 1_000_000 },
    ));
    let dest = w.offline_wallet().derive_script(&vec![5u8; 32]).unwrap();
    let peg_out = PegOut {
        recipient: Address { network: Network::Bitcoin, address_type: None, script_pubkey: dest },
        amount: 10_000,
        fees: PegOutFees { fee_rate: Feerate { sats_per_kvb: 1000 }, total_weight: 0 },
    };
    assert_eq!(w.apply_output(&peg_out), Ok(10_000));
    w.db.unsigned_transactions[0].0.clone()
}

/// The deterministic nonce pair peer `p` derives for input 0 of `txid`.
fn peer_nonce(frost_key: &FrostKey<Normal>, shares: &TestShares, p: u16, txid: &[u8]) -> NonceKeyPair {
    let frost = schnorr_fun::frost::new_with_deterministic_nonces::<sha2::Sha256>();
    let mut sid = vec![0u8, 0, 0, 0];
    sid.extend_from_slice(txid);
    let secret = shares.get(&party_index(p)).unwrap();
    let mut rng: ChaCha20Rng = frost.seed_nonce_rng(frost_key, secret, &sid);
    frost.gen_nonce(&mut rng)
}

fn nonce_item(frost_key: &FrostKey<Normal>, shares: &TestShares, p: u16, txid: &Vec<u8>) -> (
    u16,
    WalletConsensusItem,
) {
    let kp = peer_nonce(frost_key, shares, p, txid);
    (p, WalletConsensusItem::PegOutNonce(PegOutNonceItem {
        txid: txid.clone(),
        nonces: vec![minimint_wallet::FrostNonce(kp.public().to_bytes().to_vec())],
    }))
}

#[test]
fn s4_threshold_gating() {
    let (frost_key, shares) = reference_keygen();
    let mut w = test_wallet();
    let txid = queue_peg_out(&mut w);

    // epoch 1: only peers 1 and 2 contribute nonces; threshold is 3
    w.begin_consensus_epoch(vec![
        nonce_item(&frost_key, &shares, 1, &txid),
        nonce_item(&frost_key, &shares, 2, &txid),
        round_item(),
    ]);
    let drops = w.end_consensus_epoch(&vec![1, 2]).unwrap();
    assert_eq!(drops, Vec::<u16>::new());
    // no share emitted yet: the nonce proposal is still staged, no signature
    // proposal exists, and the row keeps gathering
    assert_eq!(w.db.peg_out_nonce_ci.len(), 1);
    assert_eq!(w.db.peg_out_signature_ci.len(), 0);
    assert_eq!(w.db.unsigned_transactions[0].1.nonces.len(), 2);

    // epoch 2: peer 3 contributes, reaching the threshold
    w.begin_consensus_epoch(vec![nonce_item(&frost_key, &shares, 3, &txid), round_item()]);
    let drops = w.end_consensus_epoch(&vec![1, 2, 3]).unwrap();
    assert_eq!(drops, Vec::<u16>::new());
    // the nonce proposal is withdrawn and a signature proposal is staged
    assert_eq!(w.db.peg_out_nonce_ci.len(), 0);
    assert_eq!(w.db.peg_out_signature_ci.len(), 1);
    assert_eq!(w.db.unsigned_transactions[0].1.nonces.len(), 3);
}

#[test]
fn s5_invalid_share_drops_peer() {
    let (frost_key, shares) = reference_keygen();
    let mut w = test_wallet();
    let txid = queue_peg_out(&mut w);

    // nonces from peers 1, 2 and 4 are gathered
    w.begin_consensus_epoch(vec![
        nonce_item(&frost_key, &shares, 1, &txid),
        nonce_item(&frost_key, &shares, 2, &txid),
        nonce_item(&frost_key, &shares, 4, &txid),
        round_item(),
    ]);
    // peer 4 attaches a share that does not verify
    w.begin_consensus_epoch(vec![
        (4u16, WalletConsensusItem::PegOutSignature(PegOutSignatureItem {
            txid: txid.clone(),
            signatures: vec![FrostSigShare(vec![1u8; 32])],
        })),
        round_item(),
    ]);
    let row_before = w.db.unsigned_transactions[0].1.signatures.clone();
    let drops = w.end_consensus_epoch(&vec![4]).unwrap();
    // peer 4 is dropped for the invalid share; the row is unchanged
    assert_eq!(drops, vec![4u16]);
    assert_eq!(w.db.unsigned_transactions.len(), 1);
    assert_eq!(w.db.unsigned_transactions[0].1.signatures, row_before);
    assert_eq!(w.db.pending_transactions.len(), 0);
}

#[test]
fn full_signing_path_finalizes_with_valid_signature() {
    let (frost_key, shares) = reference_keygen();
    let frost = schnorr_fun::frost::new_with_deterministic_nonces::<sha2::Sha256>();
    let mut w = test_wallet();
    let txid = queue_peg_out(&mut w);

    // round one: peers 1, 2, 3 contribute nonces and the row advances
    w.begin_consensus_epoch(vec![
        nonce_item(&frost_key, &shares, 1, &txid),
        nonce_item(&frost_key, &shares, 2, &txid),
        nonce_item(&frost_key, &shares, 3, &txid),
        round_item(),
    ]);
    w.end_consensus_epoch(&vec![1, 2, 3]).unwrap();
    assert_eq!(w.db.peg_out_signature_ci.len(), 1);

    // recompute the on-chain key and message the wallet signs under
    let row_tx = &w.db.unsigned_transactions[0].1;
    let (_, _, message, _) = w.create_sign_session(row_tx, 0).unwrap();
    let input_tweak = &row_tx.psbt.inputs[0].tweak;
    let tweak = {
        let mut engine = HmacEngine::<sha256::Hash>::new(&frost_key.public_key().to_bytes());
        engine.input(input_tweak);
        Hmac::<sha256::Hash>::from_engine(engine).into_inner()
    };
    let tweaked = frost_key.clone().tweak(Scalar::<Secret, Zero>::from_bytes_mod_order(tweak)).unwrap();
    let xonly = tweaked.into_xonly_key();
    let tap = {
        let pk = bitcoin::XOnlyPublicKey::from_slice(&xonly.public_key().to_xonly_bytes()).unwrap();
        bitcoin::util::taproot::TapTweakHash::from_key_and_tweak(pk, None).into_inner()
    };
    let on_chain = xonly.tweak(Scalar::<Secret, Zero>::from_bytes_mod_order(tap)).unwrap();

    // each signer computes its share over the same session
    let mut nonce_map = BTreeMap::new();
    for p in [1u16, 2, 3] {
        nonce_map.insert(party_index(p), peer_nonce(&frost_key, &shares, p, &txid).public());
    }
    let session = frost.start_sign_session(&on_chain, nonce_map, Message::<Public>::raw(&message));
    let mut sig_items = Vec::new();
    for p in [1u16, 2, 3] {
        let secret = shares.get(&party_index(p)).unwrap();
        let kp = peer_nonce(&frost_key, &shares, p, &txid);
        let share = frost.sign(&on_chain, &session, party_index(p), secret, kp);
        assert!(frost.verify_signature_share(&on_chain, &session, party_index(p), share));
        sig_items.push((p, WalletConsensusItem::PegOutSignature(PegOutSignatureItem {
            txid: txid.clone(),
            signatures: vec![FrostSigShare(share.to_bytes().to_vec())],
        })));
    }
    sig_items.push(round_item());

    // round two: the shares arrive and the transaction finalizes
    w.begin_consensus_epoch(sig_items);
    let drops = w.end_consensus_epoch(&vec![1, 2, 3]).unwrap();
    assert_eq!(drops, Vec::<u16>::new());
    assert_eq!(w.db.unsigned_transactions.len(), 0);
    assert_eq!(w.db.peg_out_signature_ci.len(), 0);
    assert_eq!(w.db.pending_transactions.len(), 1);

    // the witness is a 64-byte Schnorr signature that verifies against the
    // on-chain key and the taproot key-spend sighash
    let pending = &w.db.pending_transactions[0].1;
    assert_eq!(pending.tx.input[0].witness.len(), 1);
    let wit = &pending.tx.input[0].witness[0];
    assert_eq!(wit.len(), 64);
    let sig = schnorr_fun::Signature::from_bytes(<[u8; 64]>::try_from(wit.as_slice()).unwrap())
        .unwrap();
    assert!(frost.schnorr.verify(&on_chain.public_key(), Message::<Public>::raw(&message), &sig));
    // the change tweak travelled into the pending transaction
    assert_eq!(pending.tweak, vec![9u8; 32]);
}
