//! The FROST threshold-Schnorr primitives, consumed from the schnorr_fun
//! crate through trusted declarations and wrappers. The coordination logic in
//! this crate treats keys, nonces and signature shares as opaque values; every
//! decision it takes over them (who participated, who misbehaved, when a
//! transaction is finalized) is made in verified code over the wrappers'
//! results.
//!
//! Party indices: peer `p` signs under the party index `p + 1` (as a scalar),
//! the convention key generation uses. `FrostKey` carries a trait-bounded type
//! parameter that its declaration to the verifier cannot express, so keys and
//! secret shares are held in opaque single-field structs instead.
use vstd::prelude::*;

use core::num::NonZeroU32;
use std::collections::BTreeMap;
use rand::RngCore;
use rand::SeedableRng;
use schnorr_fun::Message;
use schnorr_fun::frost::new_with_deterministic_nonces;
use sha2::Sha256;
use schnorr_fun::Signature;
use schnorr_fun::binonce::Nonce;
use schnorr_fun::fun::Scalar;
use schnorr_fun::fun::marker::EvenY;
use schnorr_fun::fun::marker::NonZero;
use schnorr_fun::fun::marker::Normal;
use schnorr_fun::fun::marker::Public;
use schnorr_fun::fun::marker::Secret;
use schnorr_fun::fun::marker::Zero;

verus! {

#[verifier::external_type_specification]
#[verifier::external_body]
pub struct ExSignSession(schnorr_fun::frost::SignSession);

#[verifier::external_type_specification]
#[verifier::external_body]
pub struct ExNonceKeyPair(schnorr_fun::binonce::NonceKeyPair);

/// The federation's aggregate FROST key (opaque to the verifier).
#[verifier::external_body]
pub struct FrostKeyNormal {
    inner: schnorr_fun::frost::FrostKey<Normal>,
}

/// An x-only (BIP340) FROST key (opaque to the verifier).
#[verifier::external_body]
pub struct FrostKeyXOnly {
    inner: schnorr_fun::frost::FrostKey<EvenY>,
}

/// One peer's secret key share (opaque to the verifier).
#[verifier::external_body]
pub struct SecretShare {
    inner: Scalar<Secret, NonZero>,
}

/// Relies on `Frost::simulate_keygen` with a ChaCha20 rng seeded from `seed`:
/// a trusted-setup key for `n_parties` peers at the given threshold, with peer
/// `p`'s secret share at position `p`. `None` when the parameters are not
/// `0 < threshold <= n_parties`.
#[verifier::external_body]
pub fn simulate_keygen(threshold: usize, n_parties: usize, seed: &Vec<u8>) -> (r: Option<(
    FrostKeyNormal,
    Vec<SecretShare>,
)>)
    requires
        seed@.len() == 32,
    ensures
        r.is_some() ==> r.unwrap().1@.len() == n_parties,
{
    if threshold == 0 || n_parties == 0 || threshold > n_parties {
        return None;
    }
    let frost = new_with_deterministic_nonces::<Sha256>();
    let mut seed_arr = [0u8; 32];
    seed_arr.copy_from_slice(seed.as_slice());
    let mut rng = rand_chacha::ChaCha20Rng::from_seed(seed_arr);
    let (key, shares) = frost.simulate_keygen(threshold, n_parties, &mut rng);
    let shares = shares.into_values().map(|s| SecretShare { inner: s }).collect();
    Some((FrostKeyNormal { inner: key }, shares))
}

/// Relies on `Point::to_bytes`: the aggregate public key, serialized to
/// 33 bytes.
#[verifier::external_body]
pub(crate) fn frost_public_key_bytes(key: &FrostKeyNormal) -> (r: Vec<u8>)
    ensures
        r@.len() == 33,
{
    key.inner.public_key().to_bytes().to_vec()
}

/// Relies on `FrostKey::<Normal>::tweak` with the 32 bytes read as a scalar
/// modulo the group order: shifts the aggregate key by `tweak · G`; `None`
/// only in the negligible case that the result is the point at infinity.
#[verifier::external_body]
pub(crate) fn tweak_frost_key(key: &FrostKeyNormal, tweak: &Vec<u8>) -> (r: Option<FrostKeyNormal>)
    requires
        tweak@.len() == 32,
{
    let mut bytes = [0u8; 32];
    bytes.copy_from_slice(tweak.as_slice());
    let scalar = Scalar::<Secret, Zero>::from_bytes_mod_order(bytes);
    key.inner.clone().tweak(scalar).map(|k| FrostKeyNormal { inner: k })
}

/// Relies on `FrostKey::into_xonly_key`: the BIP340 form of the key.
#[verifier::external_body]
pub(crate) fn frost_key_into_xonly(key: &FrostKeyNormal) -> (r: FrostKeyXOnly)
{
    FrostKeyXOnly { inner: key.inner.clone().into_xonly_key() }
}

/// Relies on `Point::to_xonly_bytes`: the 32-byte x-only serialization of the
/// aggregate public key.
#[verifier::external_body]
pub(crate) fn xonly_public_key_bytes(key: &FrostKeyXOnly) -> (r: Vec<u8>)
    ensures
        r@.len() == 32,
{
    key.inner.public_key().to_xonly_bytes().to_vec()
}

/// Relies on `FrostKey::<EvenY>::tweak` with the 32 bytes read as a scalar
/// modulo the group order: the BIP341-style x-only tweak; `None` only in the
/// negligible case that the result is the point at infinity.
#[verifier::external_body]
pub(crate) fn tweak_xonly_frost_key(key: &FrostKeyXOnly, tweak: &Vec<u8>) -> (r: Option<
    FrostKeyXOnly,
>)
    requires
        tweak@.len() == 32,
{
    let mut bytes = [0u8; 32];
    bytes.copy_from_slice(tweak.as_slice());
    let scalar = Scalar::<Secret, Zero>::from_bytes_mod_order(bytes);
    key.inner.clone().tweak(scalar).map(|k| FrostKeyXOnly { inner: k })
}

/// Relies on bitcoin's `TapTweakHash::from_key_and_tweak` with an empty merkle
/// root: the BIP341 tweak of an x-only key, a function of the key bytes alone.
/// `None` when the 32 bytes are not a valid x-only key.
#[verifier::external_body]
pub(crate) fn tap_tweak_hash(xonly_key: &Vec<u8>) -> (r: Option<Vec<u8>>)
    requires
        xonly_key@.len() == 32,
    ensures
        r.is_some() ==> r.unwrap()@.len() == 32,
{
    let key = match bitcoin::XOnlyPublicKey::from_slice(xonly_key.as_slice()) {
        Ok(k) => k,
        Err(_) => return None,
    };
    let hash = bitcoin::util::taproot::TapTweakHash::from_key_and_tweak(key, None);
    Some(bitcoin::hashes::Hash::into_inner(hash).to_vec())
}

/// Relies on `Frost::seed_nonce_rng` and `Frost::gen_nonce` with deterministic
/// nonce generation and a ChaCha20 seed rng: the nonce pair derived from the
/// secret share and the session id.
#[verifier::external_body]
pub(crate) fn frost_gen_nonce(key: &FrostKeyNormal, secret: &SecretShare, sid: &Vec<u8>) -> (r:
    schnorr_fun::binonce::NonceKeyPair)
{
    let frost = new_with_deterministic_nonces::<Sha256>();
    let mut rng: rand_chacha::ChaCha20Rng = frost.seed_nonce_rng(&key.inner, &secret.inner, sid.as_slice());
    frost.gen_nonce(&mut rng)
}

/// Relies on `Nonce::to_bytes`: the public part of a nonce pair, 66 bytes.
#[verifier::external_body]
pub(crate) fn nonce_public_bytes(kp: &schnorr_fun::binonce::NonceKeyPair) -> (r: Vec<u8>)
    ensures
        r@.len() == 66,
{
    kp.public().to_bytes().to_vec()
}

/// Relies on `Frost::start_sign_session`: fixes the signing coalition (the
/// peers whose 66-byte nonces are given), the aggregate nonce and the
/// challenge for the 32-byte message. `None` when a nonce does not parse or
/// fewer distinct peers than the threshold contributed (the coalition is the
/// distinct peers, later entries winning, as the underlying map decides).
#[verifier::external_body]
pub(crate) fn start_sign_session(
    key: &FrostKeyXOnly,
    nonces: &Vec<(u16, Vec<u8>)>,
    message: &Vec<u8>,
) -> (r: Option<schnorr_fun::frost::SignSession>)
    requires
        message@.len() == 32,
{
    let frost = new_with_deterministic_nonces::<Sha256>();
    let pidx = |p: u16| Scalar::from_non_zero_u32(NonZeroU32::new(p as u32 + 1).unwrap()).public();
    let mut map = BTreeMap::new();
    for (peer, bytes) in nonces.iter() {
        let arr: [u8; 66] = bytes.as_slice().try_into().ok()?;
        map.insert(pidx(*peer), Nonce::from_bytes(arr)?);
    }
    if map.len() < key.inner.threshold() {
        return None;
    }
    Some(frost.start_sign_session(&key.inner, map, Message::<Public>::raw(message)))
}

/// Relies on `Frost::verify_signature_share`: whether the 32-byte share is the
/// peer's valid contribution to the session. A share that does not parse, or a
/// peer outside the session's coalition, is invalid.
#[verifier::external_body]
pub(crate) fn frost_verify_share(
    key: &FrostKeyXOnly,
    session: &schnorr_fun::frost::SignSession,
    peer: u16,
    share: &Vec<u8>,
) -> (r: bool)
{
    let frost = new_with_deterministic_nonces::<Sha256>();
    let idx = Scalar::from_non_zero_u32(NonZeroU32::new(peer as u32 + 1).expect("positive")).public();
    if !session.participants().any(|p| p == idx) {
        return false;
    }
    let arr: [u8; 32] = match share.as_slice().try_into() { Ok(a) => a, Err(_) => return false };
    let s = match Scalar::<Secret, Zero>::from_bytes(arr) { Some(s) => s.public(), None => return false };
    frost.verify_signature_share(&key.inner, session, idx, s)
}

/// Relies on `Frost::start_sign_session` and `Frost::sign`: this peer's
/// 32-byte signature share for the message under the session the given nonces
/// define. `None` when the session cannot be built, this peer is not in the
/// coalition, or its nonce entry differs from the given nonce pair's public
/// part (the underlying `sign` refuses a mismatched nonce).
#[verifier::external_body]
pub(crate) fn frost_sign_with_nonces(
    key: &FrostKeyXOnly,
    nonces: &Vec<(u16, Vec<u8>)>,
    message: &Vec<u8>,
    my_peer: u16,
    secret: &SecretShare,
    kp: schnorr_fun::binonce::NonceKeyPair,
) -> (r: Option<Vec<u8>>)
    requires
        message@.len() == 32,
    ensures
        r.is_some() ==> r.unwrap()@.len() == 32,
{
    let frost = new_with_deterministic_nonces::<Sha256>();
    let pidx = |p: u16| Scalar::from_non_zero_u32(NonZeroU32::new(p as u32 + 1).unwrap()).public();
    let mut map = BTreeMap::new();
    for (peer, bytes) in nonces.iter() {
        map.insert(pidx(*peer), Nonce::from_bytes(bytes.as_slice().try_into().ok()?)?);
    }
    let idx = pidx(my_peer);
    if map.len() < key.inner.threshold() || map.get(&idx) != Some(&kp.public()) {
        return None;
    }
    let session = frost.start_sign_session(&key.inner, map, Message::raw(message));
    Some(frost.sign(&key.inner, &session, idx, &secret.inner, kp).to_bytes().to_vec())
}

/// Relies on `Frost::combine_signature_shares`: the aggregate 64-byte Schnorr
/// signature from the given 32-byte shares. `None` when a share does not
/// parse.
#[verifier::external_body]
pub(crate) fn frost_combine_shares(
    key: &FrostKeyXOnly,
    session: &schnorr_fun::frost::SignSession,
    shares: &Vec<Vec<u8>>,
) -> (r: Option<Vec<u8>>)
    ensures
        r.is_some() ==> r.unwrap()@.len() == 64,
{
    let frost = new_with_deterministic_nonces::<Sha256>();
    let mut parsed: Vec<Scalar<Public, Zero>> = Vec::new();
    for share in shares.iter() {
        let arr: [u8; 32] = match share.as_slice().try_into() { Ok(a) => a, Err(_) => return None };
        parsed.push(Scalar::<Secret, Zero>::from_bytes(arr)?.public());
    }
    Some(frost.combine_signature_shares(&key.inner, session, parsed).to_bytes().to_vec())
}

/// Relies on `Schnorr::verify`: whether the 64-byte signature is a valid
/// BIP340 signature on the 32-byte message under the key.
#[verifier::external_body]
pub(crate) fn schnorr_verify(key: &FrostKeyXOnly, message: &Vec<u8>, signature: &Vec<u8>) -> (r:
    bool)
{
    let frost = new_with_deterministic_nonces::<Sha256>();
    let arr: [u8; 64] = match signature.as_slice().try_into() { Ok(a) => a, Err(_) => return false };
    let sig = match Signature::from_bytes(arr) { Some(s) => s, None => return false };
    frost.schnorr.verify(&key.inner.public_key(), Message::<Public>::raw(message.as_slice()), &sig)
}

/// Relies on the rand crate: 32 bytes of fresh randomness; nothing is promised
/// of their value.
#[verifier::external_body]
pub(crate) fn fresh_random_bytes32() -> (r: Vec<u8>)
    ensures
        r@.len() == 32,
{
    let mut bytes = [0u8; 32];
    rand::thread_rng().fill_bytes(&mut bytes);
    bytes.to_vec()
}

} // verus!
