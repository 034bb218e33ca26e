//! Round-consensus arithmetic and script derivation, checked against
//! independently computed values.
use minimint_wallet::Address;
use minimint_wallet::AddressType;
use minimint_wallet::Feerate;
use minimint_wallet::Network;
use minimint_wallet::RoundConsensusItem;
use minimint_wallet::is_address_valid_for_network;
use minimint_wallet::WalletConsensusItem;
use minimint_wallet::builder::StatelessWallet;
use minimint_wallet::config::WalletConfig;
use minimint_wallet::frost::simulate_keygen;
use minimint_wallet::wallet::Wallet;

use bitcoin::hashes::Hash as BitcoinHash;
use bitcoin::hashes::HashEngine;
use bitcoin::hashes::Hmac;
use bitcoin::hashes::HmacEngine;
use bitcoin::hashes::sha256;
use miniscript::DescriptorTrait;
use miniscript::TranslatePk3;

const DESC: &str = "wpkh(0279BE667EF9DCBBAC55A06295CE870B07029BFCDB2DCE28D959F2815B16F81798)";

fn test_wallet() -> Wallet {
    let seed = vec![7u8; 32];
    let (frost_key, mut shares) = simulate_keygen(3, 5, &seed).unwrap();
    let cfg = WalletConfig {
        network: Network::Bitcoin,
        peg_in_descriptor: DESC.to_string(),
        peer_id: 0,
        finality_delay: 10,
        default_fee: Feerate { sats_per_kvb: 2000 },
        threshold: 3,
        frost_key,
        peg_in_key: shares.remove(0),
    };
    Wallet::new(cfg)
}

#[test]
fn fee_median_is_middle_of_sorted() {
    let w = test_wallet();
    let proposals = vec![
        Feerate { sats_per_kvb: 2000 },
        Feerate { sats_per_kvb: 1500 },
        Feerate { sats_per_kvb: 1800 },
    ];
    assert_eq!(w.process_fee_proposals(proposals).sats_per_kvb, 1800);
    let proposals = vec![Feerate { sats_per_kvb: 10 }, Feerate { sats_per_kvb: 20 }];
    // even count: the upper middle
    assert_eq!(w.process_fee_proposals(proposals).sats_per_kvb, 20);
}

#[test]
fn randomness_beacon_xor_and_permutation() {
    let w = test_wallet();
    let a = vec![0x01u8; 32];
    let b = vec![0x02u8; 32];
    let c = vec![0x03u8; 32];
    let r1 = w.process_randomness_contributions(&vec![a.clone(), b.clone(), c.clone()]);
    let r2 = w.process_randomness_contributions(&vec![c, a, b]);
    assert_eq!(r1, vec![0x00u8; 32]);
    assert_eq!(r1, r2);
}

#[test]
fn s2_median_round() {
    // three peers propose heights [120, 118, 125], fees [2000, 1500, 1800],
    // randomness 0x01.. 0x02.. 0x03..
    let mut w = test_wallet();
    let items = vec![
        (0u16, WalletConsensusItem::RoundConsensus(RoundConsensusItem {
            block_height: 120,
            fee_rate: Feerate { sats_per_kvb: 2000 },
            randomness: vec![0x01u8; 32],
        })),
        (1u16, WalletConsensusItem::RoundConsensus(RoundConsensusItem {
            block_height: 118,
            fee_rate: Feerate { sats_per_kvb: 1500 },
            randomness: vec![0x02u8; 32],
        })),
        (2u16, WalletConsensusItem::RoundConsensus(RoundConsensusItem {
            block_height: 125,
            fee_rate: Feerate { sats_per_kvb: 1800 },
            randomness: vec![0x03u8; 32],
        })),
    ];
    let h = w.begin_consensus_epoch(items);
    assert_eq!(h, 120);
    let rc = w.current_round_consensus().clone().unwrap();
    assert_eq!(rc.block_height, 120);
    assert_eq!(rc.fee_rate.sats_per_kvb, 1800);
    assert_eq!(rc.randomness_beacon, vec![0x00u8; 32]);
}

#[test]
fn consensus_height_never_decreases() {
    let mut w = test_wallet();
    let round = |h: u32| (0u16, WalletConsensusItem::RoundConsensus(RoundConsensusItem {
        block_height: h,
        fee_rate: Feerate { sats_per_kvb: 1000 },
        randomness: vec![0u8; 32],
    }));
    assert_eq!(w.begin_consensus_epoch(vec![round(5)]), 5);
    assert_eq!(w.begin_consensus_epoch(vec![round(9)]), 9);
    assert_eq!(w.current_round_consensus().clone().unwrap().block_height, 9);
}

#[test]
fn address_network_rules() {
    let legacy_testnet = Address {
        network: Network::Testnet,
        address_type: Some(AddressType::P2pkh),
        script_pubkey: vec![],
    };
    assert!(is_address_valid_for_network(&legacy_testnet, Network::Testnet));
    assert!(is_address_valid_for_network(&legacy_testnet, Network::Regtest));
    assert!(is_address_valid_for_network(&legacy_testnet, Network::Signet));
    assert!(!is_address_valid_for_network(&legacy_testnet, Network::Bitcoin));
    let segwit_testnet = Address {
        network: Network::Testnet,
        address_type: Some(AddressType::P2wpkh),
        script_pubkey: vec![],
    };
    assert!(is_address_valid_for_network(&segwit_testnet, Network::Testnet));
    assert!(is_address_valid_for_network(&segwit_testnet, Network::Signet));
    assert!(!is_address_valid_for_network(&segwit_testnet, Network::Regtest));
    let mainnet = Address {
        network: Network::Bitcoin,
        address_type: Some(AddressType::P2wpkh),
        script_pubkey: vec![],
    };
    assert!(is_address_valid_for_network(&mainnet, Network::Bitcoin));
    assert!(!is_address_valid_for_network(&mainnet, Network::Testnet));
}

#[test]
fn derive_script_matches_independent_derivation() {
    // the tweaked script must equal the descriptor with each key shifted by
    // HMAC-SHA256(key = serialized pubkey, msg = tweak) * G, computed here
    // directly with miniscript and secp256k1
    let wallet = StatelessWallet { descriptor: DESC.to_string() };
    let tweak = vec![0x42u8; 32];
    let got = wallet.derive_script(&tweak).unwrap();

    let desc: miniscript::Descriptor<bitcoin::secp256k1::PublicKey> = DESC.parse().unwrap();
    let secp = bitcoin::secp256k1::Secp256k1::verification_only();
    let expected = desc
        .translate_pk3_infallible(|pk: &bitcoin::secp256k1::PublicKey| {
            let mut engine = HmacEngine::<sha256::Hash>::new(&pk.serialize()[..]);
            engine.input(&tweak);
            let h = Hmac::<sha256::Hash>::from_engine(engine).into_inner();
            let mut t = *pk;
            t.add_exp_assign(&secp, &h).unwrap();
            t
        })
        .script_pubkey()
        .into_bytes();
    assert_eq!(got, expected);
    assert_ne!(got, tweak);
    // deterministic
    assert_eq!(wallet.derive_script(&tweak).unwrap(), got);
    // a different tweak gives a different script
    assert_ne!(wallet.derive_script(&vec![0x43u8; 32]).unwrap(), got);
}
