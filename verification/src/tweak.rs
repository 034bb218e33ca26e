//! Tweaked key and script derivation, and the other chain-format computations
//! this module takes from the bitcoin and miniscript crates: HMAC-SHA256,
//! per-tweak descriptor scripts, dust values, satisfaction weights,
//! transaction ids and taproot sighashes. Each outside computation is reached
//! through one trusted function; deterministic results are pinned by an
//! uninterpreted name so that callers can state exact contracts over them.
use vstd::prelude::*;

use crate::types::TransactionData;
use crate::types::TxInput;
use crate::types::TxOutput;
use bitcoin::hashes::Hash as BitcoinHash;
use bitcoin::hashes::HashEngine;
use bitcoin::hashes::Hmac;
use bitcoin::hashes::HmacEngine;
use bitcoin::hashes::sha256;
use bitcoin::Script;
use bitcoin::SchnorrSighashType;
use bitcoin::TxIn;
use bitcoin::TxOut;
use bitcoin::Txid;
use bitcoin::Witness;
use bitcoin::util::sighash::Prevouts;
use bitcoin::util::sighash::SighashCache;
use miniscript::DescriptorTrait;
use miniscript::TranslatePk3;

verus! {

/// The script of the federation descriptor after every public key has been
/// shifted by its per-tweak HMAC scalar; `None` when the descriptor string
/// does not parse or a derived scalar is out of range.
pub uninterp spec fn tweaked_script_of(descriptor: Seq<char>, tweak: Seq<u8>) -> Option<Seq<u8>>;

/// The descriptor's maximum satisfaction weight; `None` when the descriptor
/// string does not parse or the descriptor is unsatisfiable.
pub uninterp spec fn max_sat_weight_of(descriptor: Seq<char>) -> Option<int>;

/// The minimum amount an output with this script may carry to be broadcastable.
pub uninterp spec fn dust_value_of(script: Seq<u8>) -> int;

/// HMAC-SHA256 digest (32 bytes).
pub uninterp spec fn hmac_sha256_of(key: Seq<u8>, msg: Seq<u8>) -> Seq<u8>;

/// The id of a transaction with the given version, lock time, inputs (previous
/// output txid and index, and sequence) and outputs (value and script).
pub uninterp spec fn txid_of(
    version: int,
    lock_time: int,
    inputs: Seq<(Seq<u8>, u32, u32)>,
    outputs: Seq<(u64, Seq<u8>)>,
) -> Seq<u8>;

/// The BIP341 key-spend sighash of a transaction: a function of its version,
/// lock time, inputs (previous outputs and sequences), outputs, the spent
/// outputs (value and script, in input order) and the input index; the sighash
/// type is the default and there is no annex.
pub uninterp spec fn sighash_of(
    version: int,
    lock_time: int,
    inputs: Seq<(Seq<u8>, u32, u32)>,
    outputs: Seq<(u64, Seq<u8>)>,
    prevouts: Seq<(u64, Seq<u8>)>,
    input_index: int,
) -> Seq<u8>;

/// The value and script of each output in a list.
pub open spec fn outputs_view(s: Seq<TxOutput>) -> Seq<(u64, Seq<u8>)> {
    s.map_values(|o: TxOutput| (o.value, o.script_pubkey@))
}

/// The fields of a transaction's inputs that its id commits to.
pub open spec fn tx_inputs_view(t: TransactionData) -> Seq<(Seq<u8>, u32, u32)> {
    t.input@.map(|i: int, x: TxInput| (x.previous_output.txid@, x.previous_output.vout, x.sequence))
}

/// The fields of a transaction's outputs that its id commits to.
pub open spec fn tx_outputs_view(t: TransactionData) -> Seq<(u64, Seq<u8>)> {
    outputs_view(t.output@)
}

/// All previous-output ids of a transaction are 32 bytes, as the chain format
/// requires.
pub open spec fn tx_prevouts_wf(t: TransactionData) -> bool {
    forall|i: int| 0 <= i < t.input@.len() ==> (#[trigger] t.input@[i]).previous_output.txid@.len() == 32
}

/// Relies on miniscript's `Descriptor::from_str`, `translate_pk3_infallible`
/// and `script_pubkey`, on bitcoin's HMAC-SHA256 and on secp256k1's
/// `add_exp_assign`: every public key `P` of the descriptor is replaced by
/// `P + HMAC-SHA256(key = P.serialize(), msg = tweak)·G` and the resulting
/// descriptor's script is returned. The result is a function of the
/// descriptor string and the tweak alone.
#[verifier::external_body]
pub(crate) fn derive_script_bytes(descriptor: &String, tweak: &Vec<u8>) -> (r: Option<Vec<u8>>)
    ensures
        r.is_some() == tweaked_script_of(descriptor@, tweak@).is_some(),
        r.is_some() ==> r.unwrap()@ == tweaked_script_of(descriptor@, tweak@).unwrap(),
{
    let desc: miniscript::Descriptor<bitcoin::secp256k1::PublicKey> = match descriptor.parse() { Ok(d) => d, Err(_) => return None };
    let secp = bitcoin::secp256k1::Secp256k1::verification_only();
    let mut ok = true;
    let tweaked = desc.translate_pk3_infallible(|pub_key: &bitcoin::secp256k1::PublicKey| {
        let mut hasher = HmacEngine::<sha256::Hash>::new(&pub_key.serialize()[..]);
        hasher.input(tweak.as_slice());
        let mut tweak_key = *pub_key;
        ok = ok && tweak_key.add_exp_assign(&secp, &Hmac::<sha256::Hash>::from_engine(hasher).into_inner()).is_ok();
        tweak_key
    });
    if ok { Some(tweaked.script_pubkey().into_bytes()) } else { None }
}

/// Relies on miniscript's `max_satisfaction_weight`: the largest weight that
/// satisfying one input under this descriptor can add to a transaction.
#[verifier::external_body]
pub(crate) fn descriptor_max_satisfaction_weight(descriptor: &String) -> (r: Option<u64>)
    ensures
        r.is_some() == max_sat_weight_of(descriptor@).is_some(),
        r.is_some() ==> r.unwrap() == max_sat_weight_of(descriptor@).unwrap(),
{
    let desc: miniscript::Descriptor<bitcoin::secp256k1::PublicKey> = match descriptor.parse() {
        Ok(d) => d,
        Err(_) => return None,
    };
    desc.max_satisfaction_weight().ok().map(|w| w as u64)
}

/// Relies on bitcoin's `Script::dust_value`: the minimum broadcastable amount
/// for an output carrying this script, a function of the script bytes alone.
#[verifier::external_body]
pub(crate) fn script_dust_value(script: &Vec<u8>) -> (r: u64)
    ensures
        r == dust_value_of(script@),
{
    bitcoin::Script::from(script.clone()).dust_value().as_sat()
}

/// Relies on bitcoin's HMAC-SHA256 implementation: a 32-byte digest that is a
/// function of key and message alone.
#[verifier::external_body]
pub(crate) fn hmac_sha256(key: &Vec<u8>, msg: &Vec<u8>) -> (r: Vec<u8>)
    ensures
        r@ == hmac_sha256_of(key@, msg@),
        r@.len() == 32,
{
    let mut engine = HmacEngine::<sha256::Hash>::new(key.as_slice());
    engine.input(msg.as_slice());
    Hmac::<sha256::Hash>::from_engine(engine).into_inner().to_vec()
}

#[verifier::external_type_specification]
#[verifier::external_body]
pub struct ExBitcoinTransaction(bitcoin::Transaction);

/// Relies on bitcoin's transaction type: the modelled transaction rebuilt
/// field for field, witness items included.
#[verifier::external_body]
pub(crate) fn to_bitcoin_tx(tx: &TransactionData) -> (r: bitcoin::Transaction)
    requires
        tx_prevouts_wf(*tx),
{
    let input = tx.input.iter().map(|i| TxIn {
        previous_output: bitcoin::OutPoint { txid: Txid::from_slice(&i.previous_output.txid).expect("id"), vout: i.previous_output.vout },
        sequence: i.sequence, witness: Witness::from_vec(i.witness.clone()), script_sig: Script::new(),
    }).collect();
    let output = tx.output.iter().map(|o| TxOut { value: o.value, script_pubkey: o.script_pubkey.clone().into() }).collect();
    bitcoin::Transaction { version: tx.version, lock_time: tx.lock_time, input, output }
}

/// Relies on bitcoin's `Transaction::txid`: the double-SHA256 of the
/// non-witness serialization, a function of the listed fields alone.
#[verifier::external_body]
pub(crate) fn compute_txid(tx: &TransactionData) -> (r: Vec<u8>)
    requires
        tx_prevouts_wf(*tx),
    ensures
        r@ == txid_of(tx.version as int, tx.lock_time as int, tx_inputs_view(*tx), tx_outputs_view(*tx)),
        r@.len() == 32,
{
    to_bitcoin_tx(tx).txid().as_hash().into_inner().to_vec()
}

/// Relies on bitcoin's `taproot_key_spend_signature_hash` with `Prevouts::All`
/// and the default sighash type; `None` when the input index or the prevout
/// list does not fit the transaction.
#[verifier::external_body]
pub(crate) fn taproot_sighash(
    tx: &TransactionData,
    prevouts: &Vec<TxOutput>,
    input_index: usize,
) -> (r: Option<Vec<u8>>)
    requires
        tx_prevouts_wf(*tx),
    ensures
        r.is_some() ==> r.unwrap()@.len() == 32,
        r.is_some() ==> r.unwrap()@ == sighash_of(
            tx.version as int,
            tx.lock_time as int,
            tx_inputs_view(*tx),
            tx_outputs_view(*tx),
            outputs_view(prevouts@),
            input_index as int,
        ),
{
    let t = to_bitcoin_tx(tx);
    let pv: Vec<TxOut> = prevouts.iter().map(|o| TxOut { value: o.value, script_pubkey: o.script_pubkey.clone().into() }).collect();
    let mut cache = SighashCache::new(&t);
    cache.taproot_key_spend_signature_hash(input_index, &Prevouts::All(&pv), SchnorrSighashType::Default).ok().map(|h| h.into_inner().to_vec())
}

} // verus!
